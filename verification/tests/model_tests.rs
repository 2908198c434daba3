use archdoc::errors::ArchDocError;
use archdoc::model::{Edges, ProjectModel};
use archdoc::strmap::StrMap;

#[test]
fn strmap_keeps_first_insertion_order_and_replaces_values() {
    let mut m: StrMap<u32> = StrMap::new();
    assert_eq!(m.insert("b".to_string(), 1), None);
    assert_eq!(m.insert("a".to_string(), 2), None);
    assert_eq!(m.insert("b".to_string(), 3), Some(1));
    assert_eq!(m.len(), 2);
    assert_eq!(m.key_at(0), "b");
    assert_eq!(m.key_at(1), "a");
    assert_eq!(m.get("b"), Some(&3));
    assert_eq!(m.get("a"), Some(&2));
    assert_eq!(m.get("c"), None);
    assert!(m.contains_key("a"));
    assert!(!m.contains_key("z"));
    assert_eq!(m.values(), vec![&3, &2]);
    assert_eq!(m.position("a"), Some(1));
}

#[test]
fn empty_model() {
    let m = ProjectModel::new();
    assert_eq!(m.modules.len(), 0);
    assert_eq!(m.files.len(), 0);
    assert_eq!(m.symbols.len(), 0);
    let e = Edges::new();
    assert!(e.module_import_edges.is_empty() && e.file_import_edges.is_empty() && e.symbol_call_edges.is_empty());
    let d = ProjectModel::default();
    assert_eq!(d.symbols.len(), 0);
}

#[test]
fn error_messages() {
    assert_eq!(ArchDocError::ConfigError("x".into()).to_string(), "Configuration error: x");
    assert_eq!(ArchDocError::AnalysisError("y".into()).to_string(), "Analysis error: y");
    assert_eq!(ArchDocError::RenderingError("z".into()).to_string(), "Rendering error: z");
    assert_eq!(
        ArchDocError::ConsistencyError("w".into()).to_string(),
        "File consistency check failed: w"
    );
    assert_eq!(
        ArchDocError::ParseError { file: "f.py".into(), line: 12, message: "bad".into() }.to_string(),
        "Parse error in f.py:12: bad"
    );
    let io = std::io::Error::new(std::io::ErrorKind::NotFound, "gone");
    assert_eq!(ArchDocError::Io(io).to_string(), "IO error: gone");
}
