use archdoc::model::{Edge, EdgeType, IntegrationFlags, ProjectModel, Symbol, SymbolKind, SymbolMetrics};
use archdoc::stats::{integration_labels, project_stats, rank_desc};

fn symbol(id: &str, kind: SymbolKind, fan_in: usize, fan_out: usize, flags: (bool, bool, bool)) -> Symbol {
    Symbol {
        id: id.to_string(),
        kind,
        module_id: String::new(),
        file_id: String::new(),
        qualname: format!("q.{}", id),
        signature: String::new(),
        annotations: None,
        docstring_first_line: None,
        purpose: String::new(),
        outbound_calls: vec![],
        inbound_calls: vec![],
        integrations_flags: IntegrationFlags { http: flags.0, db: flags.1, queue: flags.2 },
        metrics: SymbolMetrics { fan_in, fan_out, is_critical: fan_in > 10 || fan_out > 10, cycle_participant: false },
    }
}

fn import(from: &str, to: &str) -> Edge {
    Edge { from_id: from.to_string(), to_id: to.to_string(), edge_type: EdgeType::ModuleImport, meta: None }
}

#[test]
fn ranking_is_stable_and_descending() {
    assert_eq!(rank_desc(&vec![3, 5, 3, 0, 5]), vec![1, 4, 0, 2, 3]);
    assert_eq!(rank_desc(&vec![]), Vec::<usize>::new());
}

#[test]
fn counts_and_tops() {
    let mut m = ProjectModel::new();
    m.symbols.insert("a".into(), symbol("a", SymbolKind::Class, 2, 0, (true, false, false)));
    m.symbols.insert("b".into(), symbol("b", SymbolKind::Function, 12, 1, (false, true, false)));
    m.symbols.insert("c".into(), symbol("c", SymbolKind::Method, 2, 3, (true, false, true)));
    m.symbols.insert("d".into(), symbol("d", SymbolKind::AsyncFunction, 0, 0, (false, false, false)));
    m.symbols.insert("e".into(), symbol("e", SymbolKind::Function, 0, 0, (false, false, false)));
    m.edges.module_import_edges.push(import("x", "y"));
    m.edges.module_import_edges.push(import("y", "x"));
    m.edges.module_import_edges.push(import("x", "z"));

    let s = project_stats(&m);
    assert_eq!((s.files, s.modules, s.symbols), (0, 0, 5));
    assert_eq!((s.import_edges, s.call_edges), (3, 0));
    assert_eq!((s.classes, s.functions, s.async_functions, s.methods), (1, 2, 1, 1));
    assert_eq!(s.classes + s.functions + s.async_functions + s.methods, s.symbols);

    let fan_in: Vec<(String, usize, bool)> =
        s.top_fan_in.iter().map(|r| (r.qualname.clone(), r.value, r.is_critical)).collect();
    assert_eq!(
        fan_in,
        vec![("q.b".to_string(), 12, true), ("q.a".to_string(), 2, false), ("q.c".to_string(), 2, false)]
    );
    let fan_out: Vec<(String, usize)> = s.top_fan_out.iter().map(|r| (r.qualname.clone(), r.value)).collect();
    assert_eq!(fan_out, vec![("q.c".to_string(), 3), ("q.b".to_string(), 1)]);

    assert_eq!(s.http, vec!["q.a".to_string(), "q.c".to_string()]);
    assert_eq!(s.db, vec!["q.b".to_string()]);
    assert_eq!(s.queue, vec!["q.c".to_string()]);
    assert_eq!(s.mutual_imports, vec![("x".to_string(), "y".to_string())]);
    assert_eq!(integration_labels(&m), vec!["HTTP", "DB", "Queue"]);
}

#[test]
fn top_lists_hold_at_most_ten() {
    let mut m = ProjectModel::new();
    for i in 0..15usize {
        let id = format!("s{:02}", i);
        m.symbols.insert(id.clone(), symbol(&id, SymbolKind::Function, i + 1, 0, (false, false, false)));
    }
    let s = project_stats(&m);
    assert_eq!(s.top_fan_in.len(), 10);
    assert_eq!(s.top_fan_in[0].value, 15);
    assert_eq!(s.top_fan_in[9].value, 6);
    assert!(s.top_fan_out.is_empty());
    assert!(integration_labels(&m).is_empty());
}

#[test]
fn mutual_imports_once_per_edge_from_smaller_id() {
    let mut m = ProjectModel::new();
    m.edges.module_import_edges.push(import("b", "a"));
    m.edges.module_import_edges.push(import("a", "b"));
    m.edges.module_import_edges.push(import("a", "b"));
    m.edges.module_import_edges.push(import("c", "c"));
    let s = project_stats(&m);
    assert_eq!(s.mutual_imports, vec![("a".to_string(), "b".to_string()), ("a".to_string(), "b".to_string())]);
}
