use archdoc::cycle_detector::detect_cycles;
use archdoc::model::{Module, ProjectModel};

fn make_module(id: &str, outbound: Vec<&str>) -> Module {
    Module {
        id: id.to_string(),
        path: format!("{}.py", id),
        files: vec![],
        doc_summary: None,
        outbound_modules: outbound.into_iter().map(String::from).collect(),
        inbound_modules: vec![],
        symbols: vec![],
    }
}

#[test]
fn test_no_cycles() {
    let mut model = ProjectModel::new();
    model.modules.insert("a".into(), make_module("a", vec!["b"]));
    model.modules.insert("b".into(), make_module("b", vec!["c"]));
    model.modules.insert("c".into(), make_module("c", vec![]));

    let cycles = detect_cycles(&model);
    assert!(cycles.is_empty());
}

#[test]
fn test_simple_cycle() {
    let mut model = ProjectModel::new();
    model.modules.insert("a".into(), make_module("a", vec!["b"]));
    model.modules.insert("b".into(), make_module("b", vec!["a"]));

    let cycles = detect_cycles(&model);
    assert_eq!(cycles.len(), 1);
    assert!(cycles[0].contains(&"a".to_string()));
    assert!(cycles[0].contains(&"b".to_string()));
}

#[test]
fn test_three_node_cycle() {
    let mut model = ProjectModel::new();
    model.modules.insert("a".into(), make_module("a", vec!["b"]));
    model.modules.insert("b".into(), make_module("b", vec!["c"]));
    model.modules.insert("c".into(), make_module("c", vec!["a"]));

    let cycles = detect_cycles(&model);
    assert_eq!(cycles.len(), 1);
    assert_eq!(cycles[0].len(), 3);
}

#[test]
fn test_empty_graph() {
    let model = ProjectModel::new();
    let cycles = detect_cycles(&model);
    assert!(cycles.is_empty());
}

#[test]
fn test_self_cycle() {
    let mut model = ProjectModel::new();
    model.modules.insert("a".into(), make_module("a", vec!["a"]));

    let cycles = detect_cycles(&model);
    assert_eq!(cycles.len(), 1);
    assert_eq!(cycles[0], vec!["a".to_string()]);
}

fn full_module(id: &str, path: &str, outbound: Vec<&str>, inbound: Vec<&str>) -> Module {
    Module {
        id: id.into(),
        path: path.into(),
        files: vec![],
        doc_summary: None,
        outbound_modules: outbound.into_iter().map(String::from).collect(),
        inbound_modules: inbound.into_iter().map(String::from).collect(),
        symbols: vec![],
    }
}

#[test]
fn test_cycle_detection_with_known_cycles() {
    let mut model = ProjectModel::new();
    model.modules.insert("mod_a".into(), full_module("mod_a", "a.py", vec!["mod_b"], vec!["mod_c"]));
    model.modules.insert("mod_b".into(), full_module("mod_b", "b.py", vec!["mod_c"], vec!["mod_a"]));
    model.modules.insert("mod_c".into(), full_module("mod_c", "c.py", vec!["mod_a"], vec!["mod_b"]));

    let cycles = detect_cycles(&model);
    assert_eq!(cycles.len(), 1, "Should detect exactly one cycle");
    assert_eq!(cycles[0].len(), 3, "Cycle should have 3 modules");
}

#[test]
fn test_cycle_detection_no_cycles() {
    let mut model = ProjectModel::new();
    model.modules.insert("mod_a".into(), full_module("mod_a", "a.py", vec!["mod_b"], vec![]));
    model.modules.insert("mod_b".into(), full_module("mod_b", "b.py", vec![], vec!["mod_a"]));

    let cycles = detect_cycles(&model);
    assert!(cycles.is_empty(), "Should detect no cycles in DAG");
}

#[test]
fn cycle_is_reported_once_starting_at_its_smallest_member() {
    let mut model = ProjectModel::new();
    model.modules.insert("c".into(), make_module("c", vec!["a"]));
    model.modules.insert("a".into(), make_module("a", vec!["b"]));
    model.modules.insert("b".into(), make_module("b", vec!["c"]));

    let cycles = detect_cycles(&model);
    assert_eq!(cycles, vec![vec!["a".to_string(), "b".to_string(), "c".to_string()]]);
}

#[test]
fn imports_of_unknown_modules_are_ignored() {
    let mut model = ProjectModel::new();
    model.modules.insert("a".into(), make_module("a", vec!["os", "sys"]));
    let cycles = detect_cycles(&model);
    assert!(cycles.is_empty());
}

#[test]
fn two_separate_cycles_are_both_found() {
    let mut model = ProjectModel::new();
    model.modules.insert("a".into(), make_module("a", vec!["b"]));
    model.modules.insert("b".into(), make_module("b", vec!["a"]));
    model.modules.insert("x".into(), make_module("x", vec!["y"]));
    model.modules.insert("y".into(), make_module("y", vec!["x"]));
    let cycles = detect_cycles(&model);
    assert_eq!(cycles.len(), 2);
}

#[test]
fn diamond_is_not_a_cycle() {
    let mut model = ProjectModel::new();
    model.modules.insert("a".into(), make_module("a", vec!["b", "c"]));
    model.modules.insert("b".into(), make_module("b", vec!["d"]));
    model.modules.insert("c".into(), make_module("c", vec!["d"]));
    model.modules.insert("d".into(), make_module("d", vec![]));
    assert!(detect_cycles(&model).is_empty());
}

#[test]
fn cycle_behind_a_visited_node_is_found() {
    let mut model = ProjectModel::new();
    model.modules.insert("a".into(), make_module("a", vec!["b"]));
    model.modules.insert("b".into(), make_module("b", vec!["c"]));
    model.modules.insert("c".into(), make_module("c", vec!["d"]));
    model.modules.insert("d".into(), make_module("d", vec!["c"]));
    model.modules.insert("e".into(), make_module("e", vec!["d"]));
    let cycles = detect_cycles(&model);
    assert_eq!(cycles, vec![vec!["c".to_string(), "d".to_string()]]);
}
