use archdoc::config::{parse_duration, parse_file_size, Config};

#[test]
fn test_parse_duration() {
    assert_eq!(parse_duration("24h").unwrap(), 86400);
    assert_eq!(parse_duration("7d").unwrap(), 604800);
    assert_eq!(parse_duration("30m").unwrap(), 1800);
    assert_eq!(parse_duration("60s").unwrap(), 60);
    assert!(parse_duration("abc").is_err());
    assert!(parse_duration("").is_err());
    assert!(parse_duration("10x").is_err());
}

#[test]
fn test_parse_file_size() {
    assert_eq!(parse_file_size("10MB").unwrap(), 10 * 1024 * 1024);
    assert_eq!(parse_file_size("1GB").unwrap(), 1024 * 1024 * 1024);
    assert_eq!(parse_file_size("500KB").unwrap(), 500 * 1024);
    assert!(parse_file_size("abc").is_err());
    assert!(parse_file_size("").is_err());
}

#[test]
fn test_validate_default_config() {
    let config = Config::default();
    assert!(config.validate().is_ok());
}

#[test]
fn test_validate_bad_language() {
    let mut config = Config::default();
    config.project.language = "java".to_string();
    let err = config.validate().unwrap_err();
    assert!(err.to_string().contains("not supported"));
}

#[test]
fn test_validate_empty_include() {
    let mut config = Config::default();
    config.scan.include_paths = vec![];
    let err = config.validate().unwrap_err();
    assert!(err.to_string().contains("must not be empty"));
}

#[test]
fn test_validate_bad_root() {
    let mut config = Config::default();
    config.project.root = "/nonexistent/path/xyz".to_string();
    let err = config.validate().unwrap_err();
    assert!(err.to_string().contains("does not exist"));
}

#[test]
fn test_validate_bad_cache_age() {
    let mut config = Config::default();
    config.caching.max_cache_age = "invalid".to_string();
    let err = config.validate().unwrap_err();
    assert!(err.to_string().contains("not valid"));
}

#[test]
fn test_validate_bad_file_size() {
    let mut config = Config::default();
    config.scan.max_file_size = "notasize".to_string();
    let err = config.validate().unwrap_err();
    assert!(err.to_string().contains("not valid"));
}

#[test]
fn test_config_validate_rejects_bad_language() {
    let mut config = Config::default();
    config.project.language = "java".to_string();
    assert!(config.validate().is_err());
}

#[test]
fn test_parse_duration_values() {
    assert_eq!(parse_duration("24h").unwrap(), 86400);
    assert_eq!(parse_duration("7d").unwrap(), 604800);
    assert_eq!(parse_file_size("10MB").unwrap(), 10 * 1024 * 1024);
    assert_eq!(parse_file_size("1GB").unwrap(), 1024 * 1024 * 1024);
}

#[test]
fn parse_duration_error_messages() {
    assert_eq!(parse_duration("").unwrap_err(), "empty duration string");
    assert_eq!(parse_duration("abc").unwrap_err(), "no numeric value found in 'abc'");
    assert_eq!(parse_duration("42").unwrap_err(), "no unit suffix found in '42'");
    assert_eq!(parse_duration("10x").unwrap_err(), "unknown duration suffix 'x'. Use s, m, h, d, or w");
    assert_eq!(
        parse_duration("99999999999999999999s").unwrap_err(),
        "'99999999999999999999' is not a valid number"
    );
}

#[test]
fn parse_duration_trims_and_weeks() {
    assert_eq!(parse_duration("  2w  ").unwrap(), 2 * 604800);
    assert_eq!(parse_duration("0s").unwrap(), 0);
}

#[test]
fn parse_file_size_units_are_case_insensitive() {
    assert_eq!(parse_file_size("3kb").unwrap(), 3 * 1024);
    assert_eq!(parse_file_size("7B").unwrap(), 7);
    assert_eq!(parse_file_size("2m").unwrap(), 2 * 1024 * 1024);
    assert_eq!(parse_file_size("5TB").unwrap_err(), "unknown size suffix 'TB'. Use B, KB, MB, or GB");
    assert_eq!(parse_file_size("").unwrap_err(), "empty file size string");
}

#[test]
fn defaults_match_documented_values() {
    let c = Config::default();
    assert_eq!(c.project.root, ".");
    assert_eq!(c.project.out_dir, "docs/architecture");
    assert_eq!(c.project.entry_file, "ARCHITECTURE.md");
    assert_eq!(c.project.language, "python");
    assert_eq!(c.scan.include_paths, vec!["src".to_string(), "app".to_string(), "tests".to_string()]);
    assert_eq!(c.scan.max_file_size, "10MB");
    assert!(!c.scan.follow_symlinks);
    assert_eq!(c.python.src_roots, vec!["src".to_string(), ".".to_string()]);
    assert_eq!(c.caching.max_cache_age, "24h");
    assert_eq!(c.caching.cache_dir, ".archdoc/cache");
    assert!(c.caching.enabled);
}

#[test]
fn validate_reports_root_that_is_a_file() {
    let mut config = Config::default();
    config.project.root = "/etc/passwd".to_string();
    let err = config.validate().unwrap_err();
    assert_eq!(
        err.to_string(),
        "Configuration error: project.root '/etc/passwd' is not a directory"
    );
}

#[test]
fn validate_reports_missing_src_root() {
    let mut config = Config::default();
    config.python.src_roots = vec!["no_such_dir_here".to_string()];
    let err = config.validate().unwrap_err();
    assert!(err.to_string().contains("python.src_roots entry 'no_such_dir_here' does not exist"));
}
