use archdoc::config::Config;
use archdoc::scanner::FileScanner;

fn parts(p: &str) -> Vec<String> {
    p.split('/').map(|s| s.to_string()).collect()
}

#[test]
fn excluded_directories_are_named_by_patterns() {
    let s = FileScanner::new(Config::default());
    assert!(s.is_excluded(".venv"));
    assert!(s.is_excluded("__pycache__"));
    assert!(s.is_excluded("mypkg.egg-info"));
    assert!(!s.is_excluded("rebuild_utils.py"));
    assert!(!s.is_excluded("builder"));
    assert!(!s.is_excluded("egg-info"));
}

#[test]
fn only_python_files_in_included_directories_are_collected() {
    let s = FileScanner::new(Config::default());
    assert!(s.collects_file(&parts("src/app/main.py"), 10));
    assert!(s.collects_file(&parts("tests/test_x.py"), 10));
    assert!(!s.collects_file(&parts("src/app/main.txt"), 10));
    assert!(!s.collects_file(&parts("src/app/.py"), 10));
    assert!(s.collects_file(&parts("src/app/..py"), 10));
    assert!(!s.collects_file(&parts("src/.git/hook.py"), 10));
    assert!(!s.collects_file(&parts("other/b.py"), 10));
    assert!(!s.collects_file(&parts("setup.py"), 10));
    assert!(!s.collects_file(&parts("srcx/a.py"), 10));
    assert!(!s.collects_file(&vec![], 10));
}

#[test]
fn exclusion_matches_directory_names_not_substrings() {
    let s = FileScanner::new(Config::default());
    assert!(s.collects_file(&parts("src/rebuild_utils.py"), 10));
    assert!(s.collects_file(&parts("src/builder/x.py"), 10));
    assert!(!s.collects_file(&parts("src/build/x.py"), 10));
    assert!(!s.collects_file(&parts("src/pkg.egg-info/x.py"), 10));
}

#[test]
fn include_entries_name_nested_directories() {
    let mut c = Config::default();
    c.scan.include_paths = vec!["src/pkg/".to_string()];
    let s = FileScanner::new(c);
    assert!(s.collects_file(&parts("src/pkg/a.py"), 1));
    assert!(s.collects_file(&parts("src/pkg/sub/a.py"), 1));
    assert!(!s.collects_file(&parts("src/a.py"), 1));
    assert!(!s.collects_file(&parts("src/pkgx/a.py"), 1));
    let mut c = Config::default();
    c.scan.include_paths = vec![".".to_string()];
    let s = FileScanner::new(c);
    assert!(s.collects_file(&parts("setup.py"), 1));
    assert!(s.collects_file(&parts("any/where/a.py"), 1));
}

#[test]
fn files_over_the_size_limit_are_skipped() {
    let mut c = Config::default();
    c.scan.max_file_size = "1KB".to_string();
    let s = FileScanner::new(c);
    assert!(s.collects_file(&parts("src/a.py"), 1024));
    assert!(!s.collects_file(&parts("src/big.py"), 1025));
    let default = FileScanner::new(Config::default());
    assert!(default.collects_file(&parts("src/a.py"), 10 * 1024 * 1024));
    assert!(!default.collects_file(&parts("src/a.py"), 10 * 1024 * 1024 + 1));
    let mut c = Config::default();
    c.scan.max_file_size = "lots".to_string();
    let s = FileScanner::new(c);
    assert!(s.collects_file(&parts("src/a.py"), u64::MAX));
}

#[test]
fn root_problems() {
    let s = FileScanner::new(Config::default());
    assert_eq!(s.root_problem("/r", false, false).unwrap(), "Root directory does not exist: /r");
    assert_eq!(s.root_problem("/r", true, false).unwrap(), "Root path is not a directory: /r");
    assert!(s.root_problem("/r", true, true).is_none());
}
