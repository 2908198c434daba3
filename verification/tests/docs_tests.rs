use archdoc::docs::{fallback_module_doc, file_doc_markdown, kind_label, module_doc_name, sanitize_filename};
use archdoc::model::{FileDoc, IntegrationFlags, ProjectModel, Symbol, SymbolKind, SymbolMetrics};
use archdoc::writer::DiffAwareWriter;

fn symbol(id: &str, kind: SymbolKind) -> Symbol {
    Symbol {
        id: id.to_string(),
        kind,
        module_id: "m".to_string(),
        file_id: "src/m.py".to_string(),
        qualname: id.to_string(),
        signature: String::new(),
        annotations: None,
        docstring_first_line: None,
        purpose: String::new(),
        outbound_calls: vec![],
        inbound_calls: vec![],
        integrations_flags: IntegrationFlags { http: false, db: false, queue: false },
        metrics: SymbolMetrics { fan_in: 0, fan_out: 0, is_critical: false, cycle_participant: false },
    }
}

#[test]
fn sanitize_replaces_slashes() {
    assert_eq!(sanitize_filename("src/app/billing.py"), "src__app__billing.py");
    assert_eq!(sanitize_filename("./a/b.py"), "a__b.py");
    assert_eq!(sanitize_filename(".//x"), "__x");
    assert_eq!(sanitize_filename("plain.py"), "plain.py");
    assert_eq!(sanitize_filename("./"), "");
}

#[test]
fn module_doc_names() {
    assert_eq!(module_doc_name("./pkg/mod.py"), "pkg__mod.py.md");
    assert_eq!(fallback_module_doc("pkg"), "# Module: pkg\n\nTODO: Add module documentation\n");
}

#[test]
fn kind_labels_match_debug() {
    assert_eq!(kind_label(SymbolKind::Function), format!("{:?}", SymbolKind::Function));
    assert_eq!(kind_label(SymbolKind::AsyncFunction), "AsyncFunction");
    assert_eq!(kind_label(SymbolKind::Class), "Class");
    assert_eq!(kind_label(SymbolKind::Method), "Method");
}

#[test]
fn file_doc_lists_imports_and_known_symbols() {
    let mut model = ProjectModel::new();
    model.symbols.insert("Svc".to_string(), symbol("Svc", SymbolKind::Class));
    model.symbols.insert("run".to_string(), symbol("run", SymbolKind::Function));
    let f = FileDoc {
        id: "src/m.py".to_string(),
        path: "src/m.py".to_string(),
        module_id: "m".to_string(),
        imports: vec!["os".to_string(), "requests".to_string()],
        outbound_modules: vec![],
        inbound_files: vec![],
        symbols: vec!["Svc".to_string(), "ghost".to_string(), "run".to_string()],
    };
    let text = file_doc_markdown(&model, &f);
    let expected = String::from("# File: src/m.py\n\n")
        + "- **Module:** m\n"
        + "- **Defined symbols:** 3\n"
        + "- **Imports:** 2\n\n"
        + "<!-- MANUAL:BEGIN -->\n## File intent (manual)\n<FILL_MANUALLY>\n<!-- MANUAL:END -->\n\n---\n\n"
        + "## Imports & file-level dependencies\n<!-- ARCHDOC:BEGIN section=file_imports -->\n> Generated. Do not edit inside this block.\n"
        + "- os\n- requests\n"
        + "<!-- ARCHDOC:END section=file_imports -->\n\n---\n\n"
        + "## Symbols index\n<!-- ARCHDOC:BEGIN section=symbols_index -->\n> Generated. Do not edit inside this block.\n"
        + "- `Svc` (Class)\n- `run` (Function)\n"
        + "<!-- ARCHDOC:END section=symbols_index -->\n\n---\n\n"
        + "## Symbol details\n"
        + "\n<!-- ARCHDOC:BEGIN symbol id=Svc -->\n<!-- AUTOGENERATED SYMBOL CONTENT WILL BE INSERTED HERE -->\n<!-- ARCHDOC:END symbol id=Svc -->\n"
        + "\n<!-- ARCHDOC:BEGIN symbol id=run -->\n<!-- AUTOGENERATED SYMBOL CONTENT WILL BE INSERTED HERE -->\n<!-- ARCHDOC:END symbol id=run -->\n";
    assert_eq!(text, expected);

    let w = DiffAwareWriter::new();
    assert_eq!(w.find_symbol_markers(&text, "run").unwrap().len(), 1);
    assert_eq!(w.find_section_markers(&text, "file_imports").unwrap().len(), 1);
}
