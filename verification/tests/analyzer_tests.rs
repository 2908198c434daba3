use archdoc::config::Config;
use archdoc::model::{Call, CallType, EdgeType, Import, ParsedModule, SymbolKind};
use archdoc::python_analyzer::PythonAnalyzer;
use archdoc::python_ast::{PyAlias, PyArguments, PyExpr, PyFunctionDef, PyParam, PyStarParam, PyStmt};

fn name(id: &str) -> PyExpr {
    PyExpr::Name { id: id.to_string() }
}

fn attr(value: PyExpr, a: &str) -> PyExpr {
    PyExpr::Attribute { value: Box::new(value), attr: a.to_string() }
}

fn call(func: PyExpr, args: Vec<PyExpr>, offset: usize) -> PyExpr {
    PyExpr::Call { func: Box::new(func), args, keywords: vec![], offset }
}

fn no_args() -> PyArguments {
    PyArguments { args: vec![], vararg: None, kwarg: None }
}

fn def(n: &str, args: PyArguments, body: Vec<PyStmt>, body_debug: &str) -> PyStmt {
    PyStmt::FunctionDef(PyFunctionDef { name: n.to_string(), args, return_annotation: None, body, body_debug: body_debug.to_string() })
}

fn string_const(s: &str) -> PyExpr {
    PyExpr::Constant { text: Some(s.to_string()), debug: format!("Str({:?})", s) }
}

fn sample_module(analyzer: &PythonAnalyzer) -> ParsedModule {
    let suite = vec![
        PyStmt::Import {
            names: vec![PyAlias { name: "requests".to_string(), asname: Some("rq".to_string()), offset: 0 }],
        },
        PyStmt::ImportFrom {
            module: Some("os".to_string()),
            names: vec![PyAlias { name: "path".to_string(), asname: None, offset: 25 }],
        },
        def(
            "fetch",
            PyArguments {
                args: vec![PyParam { name: "url".to_string(), annotation: Some(Box::new(name("str"))), default: None }],
                vararg: None,
                kwarg: None,
            },
            vec![
                PyStmt::Expr { value: string_const("  Fetch a page.  ") },
                PyStmt::Return { value: Some(call(attr(name("requests"), "get"), vec![name("url")], 60)) },
            ],
            "[Expr(..), Return(Call(Attribute(Name(\"requests\"), \"get\")))]",
        ),
        def("helper", no_args(), vec![PyStmt::Expr { value: call(name("fetch"), vec![string_const("x")], 90) }], "[]"),
        PyStmt::ClassDef {
            name: "Service".to_string(),
            body: vec![def(
                "run",
                PyArguments {
                    args: vec![PyParam { name: "self".to_string(), annotation: None, default: None }],
                    vararg: Some(PyStarParam { name: "a".to_string(), annotation: None }),
                    kwarg: Some(PyStarParam { name: "kw".to_string(), annotation: Some(Box::new(name("dict"))) }),
                },
                vec![PyStmt::Expr { value: call(name("helper"), vec![], 120) }],
                "[]",
            )],
            body_debug: "[sqlalchemy]".to_string(),
        },
    ];
    analyzer.module_from_suite(&suite, "pkg/mod.py")
}

#[test]
fn imports_symbols_and_calls_are_extracted() {
    let analyzer = PythonAnalyzer::new(Config::default());
    let pm = sample_module(&analyzer);
    assert_eq!(pm.path, "pkg/mod.py");
    assert_eq!(pm.module_id, "pkg/mod.py");

    let imports: Vec<(String, Option<String>, usize)> =
        pm.imports.iter().map(|i| (i.module_name.clone(), i.alias.clone(), i.line_number)).collect();
    assert_eq!(
        imports,
        vec![("requests".to_string(), Some("rq".to_string()), 0), ("os.path".to_string(), None, 25)]
    );

    let symbols: Vec<(String, SymbolKind, String)> =
        pm.symbols.iter().map(|s| (s.id.clone(), s.kind, s.signature.clone())).collect();
    assert_eq!(
        symbols,
        vec![
            ("fetch".to_string(), SymbolKind::Function, "def fetch(url: str)".to_string()),
            ("helper".to_string(), SymbolKind::Function, "def helper()".to_string()),
            ("Service".to_string(), SymbolKind::Class, "class Service".to_string()),
            ("Service.run".to_string(), SymbolKind::Method, "def run(self, *a, **kw: dict)".to_string()),
        ]
    );
    assert_eq!(pm.symbols[0].docstring_first_line, Some("Fetch a page.".to_string()));
    assert_eq!(pm.symbols[0].purpose, "extracted from AST");
    assert!(pm.symbols[0].integrations_flags.http);
    assert!(!pm.symbols[0].integrations_flags.db);
    assert!(pm.symbols[2].integrations_flags.db);
    assert!(!pm.symbols[1].integrations_flags.http);

    let calls: Vec<(String, String, usize)> =
        pm.calls.iter().map(|c| (c.caller_symbol.clone(), c.callee_expr.clone(), c.line_number)).collect();
    assert_eq!(
        calls,
        vec![
            ("unknown".to_string(), "requests.get".to_string(), 60),
            ("fetch".to_string(), "requests.get".to_string(), 60),
            ("unknown".to_string(), "fetch".to_string(), 90),
            ("helper".to_string(), "fetch".to_string(), 90),
            ("Service".to_string(), "helper".to_string(), 120),
            ("Service.run".to_string(), "helper".to_string(), 120),
        ]
    );
}

#[test]
fn resolution_builds_model_and_metrics() {
    let analyzer = PythonAnalyzer::new(Config::default());
    let pm = sample_module(&analyzer);
    let model = analyzer.resolve_symbols(&[pm]).unwrap();

    assert_eq!(model.files.len(), 1);
    assert_eq!(model.modules.len(), 1);
    assert_eq!(model.symbols.len(), 4);
    let f = model.files.get("pkg/mod.py").unwrap();
    assert_eq!(f.imports, vec!["requests".to_string(), "os.path".to_string()]);
    assert_eq!(f.symbols, vec!["fetch", "helper", "Service", "Service.run"]);
    let m = model.modules.get("pkg/mod.py").unwrap();
    assert_eq!(m.files, vec!["pkg/mod.py".to_string()]);

    let fetch = model.symbols.get("fetch").unwrap();
    assert_eq!(fetch.module_id, "pkg/mod.py");
    assert_eq!(fetch.file_id, "pkg/mod.py");
    assert_eq!((fetch.metrics.fan_in, fetch.metrics.fan_out), (2, 1));
    let helper = model.symbols.get("helper").unwrap();
    assert_eq!((helper.metrics.fan_in, helper.metrics.fan_out), (2, 1));
    assert!(!helper.metrics.is_critical);

    let imports: Vec<(String, String)> =
        model.edges.module_import_edges.iter().map(|e| (e.from_id.clone(), e.to_id.clone())).collect();
    assert_eq!(
        imports,
        vec![
            ("pkg/mod.py".to_string(), "requests".to_string()),
            ("pkg/mod.py".to_string(), "os.path".to_string())
        ]
    );
    let kinds: Vec<EdgeType> = model.edges.symbol_call_edges.iter().map(|e| e.edge_type).collect();
    assert_eq!(
        kinds,
        vec![
            EdgeType::ExternalCall,
            EdgeType::ExternalCall,
            EdgeType::SymbolCall,
            EdgeType::SymbolCall,
            EdgeType::SymbolCall,
            EdgeType::SymbolCall
        ]
    );
    assert!(model.edges.file_import_edges.is_empty());
}

#[test]
fn unknown_callees_are_unresolved() {
    let analyzer = PythonAnalyzer::new(Config::default());
    let suite = vec![def("f", no_args(), vec![PyStmt::Expr { value: call(attr(name("np"), "zeros"), vec![], 7) }], "[]")];
    let pm = analyzer.module_from_suite(&suite, "a.py");
    let model = analyzer.resolve_symbols(&[pm]).unwrap();
    assert!(model.edges.symbol_call_edges.iter().all(|e| e.edge_type == EdgeType::UnresolvedCall));
    assert_eq!(model.edges.symbol_call_edges.len(), 2);
}

#[test]
fn later_symbol_with_same_id_replaces_earlier() {
    let analyzer = PythonAnalyzer::new(Config::default());
    let a = analyzer.module_from_suite(&vec![def("f", no_args(), vec![], "[]")], "a.py");
    let b = analyzer.module_from_suite(&vec![def("f", no_args(), vec![], "[]")], "b.py");
    let model = analyzer.resolve_symbols(&[a, b]).unwrap();
    assert_eq!(model.symbols.len(), 1);
    assert_eq!(model.symbols.get("f").unwrap().file_id, "b.py");
    assert_eq!(model.files.len(), 2);
}

#[test]
fn detection_follows_patterns_and_switch() {
    let analyzer = PythonAnalyzer::new(Config::default());
    let c = Config::default();
    let flags = analyzer.detect_integrations("uses redis and psycopg", &c);
    assert!(!flags.http && flags.db && flags.queue);
    let mut off = Config::default();
    off.analysis.detect_integrations = false;
    let flags = analyzer.detect_integrations("requests", &off);
    assert!(!flags.http && !flags.db && !flags.queue);
}

#[test]
fn expression_text() {
    let analyzer = PythonAnalyzer::new(Config::default());
    let e = PyExpr::Subscript { value: Box::new(attr(name("a"), "b")), slice: Box::new(string_const("k")) };
    assert_eq!(analyzer.expr_to_string(&e), "a.b[\"k\"]");
    assert_eq!(analyzer.expr_to_string(&PyExpr::Other), "<complex_expression>");
    assert_eq!(
        analyzer.expr_to_string(&PyExpr::Constant { text: None, debug: "Int(3)".to_string() }),
        "Int(3)"
    );
}

#[test]
fn empty_input_gives_empty_model() {
    let analyzer = PythonAnalyzer::new(Config::default());
    let model = analyzer.resolve_symbols(&[]).unwrap();
    assert_eq!(model.symbols.len(), 0);
    assert!(model.edges.symbol_call_edges.is_empty());
}

#[test]
fn critical_follows_configured_thresholds() {
    let mut config = Config::default();
    config.thresholds.critical_fan_in = 2;
    config.thresholds.critical_fan_out = 5;
    let analyzer = PythonAnalyzer::new(config);
    let pm = sample_module(&analyzer);
    let model = analyzer.resolve_symbols(&[pm]).unwrap();
    let fetch = model.symbols.get("fetch").unwrap();
    assert_eq!(fetch.metrics.fan_in, 2);
    assert!(fetch.metrics.is_critical);
    let run = model.symbols.get("Service.run").unwrap();
    assert!(run.metrics.fan_in < 2 && run.metrics.fan_out < 5);
    assert!(!run.metrics.is_critical);

    let default_analyzer = PythonAnalyzer::new(Config::default());
    let model = default_analyzer.resolve_symbols(&[sample_module(&default_analyzer)]).unwrap();
    assert!(!model.symbols.get("fetch").unwrap().metrics.is_critical);
}

#[test]
fn docstring_keeps_first_line_of_trimmed_text() {
    let analyzer = PythonAnalyzer::new(Config::default());
    let body = vec![PyStmt::Expr { value: string_const("\n   Summary line.  \r\n\n   More detail.\n  ") }];
    assert_eq!(analyzer.extract_docstring(&body), Some("Summary line.".to_string()));
    let one = vec![PyStmt::Expr { value: string_const("Only line") }];
    assert_eq!(analyzer.extract_docstring(&one), Some("Only line".to_string()));
    let blank = vec![PyStmt::Expr { value: string_const(" \n\t ") }];
    assert_eq!(analyzer.extract_docstring(&blank), None);
    let not_first = vec![PyStmt::Return { value: None }, PyStmt::Expr { value: string_const("doc") }];
    assert_eq!(analyzer.extract_docstring(&not_first), None);
}

fn bare_module(path: &str, imports: &[&str], calls: &[(&str, &str)]) -> ParsedModule {
    ParsedModule {
        path: path.to_string(),
        module_id: path.to_string(),
        imports: imports
            .iter()
            .map(|m| Import { module_name: m.to_string(), alias: None, line_number: 0 })
            .collect(),
        symbols: vec![],
        calls: calls
            .iter()
            .map(|(f, c)| Call {
                caller_symbol: f.to_string(),
                callee_expr: c.to_string(),
                line_number: 0,
                call_type: CallType::Unresolved,
            })
            .collect(),
    }
}

#[test]
fn call_kinds_follow_the_calling_modules_imports() {
    let analyzer = PythonAnalyzer::new(Config::default());
    let a = bare_module("a.py", &["requests"], &[("f", "requests.get")]);
    let b = bare_module("b.py", &[], &[("g", "requests.post")]);
    let model = analyzer.resolve_symbols(&[a, b]).unwrap();
    let kinds: Vec<EdgeType> = model.edges.symbol_call_edges.iter().map(|e| e.edge_type).collect();
    assert_eq!(kinds, vec![EdgeType::ExternalCall, EdgeType::UnresolvedCall]);
    let a = bare_module("a.py", &["requests"], &[("f", "requests.get")]);
    let b = bare_module("b.py", &[], &[("g", "requests.post")]);
    let model = analyzer.resolve_symbols(&[b, a]).unwrap();
    let kinds: Vec<EdgeType> = model.edges.symbol_call_edges.iter().map(|e| e.edge_type).collect();
    assert_eq!(kinds, vec![EdgeType::UnresolvedCall, EdgeType::ExternalCall]);
}

#[test]
fn modules_list_what_they_import_and_who_imports_them() {
    let analyzer = PythonAnalyzer::new(Config::default());
    let a = bare_module("a.py", &["b.py", "os", "a.py"], &[]);
    let b = bare_module("b.py", &[], &[]);
    let c = bare_module("c.py", &["b.py"], &[]);
    let model = analyzer.resolve_symbols(&[a, b, c]).unwrap();
    let ma = model.modules.get("a.py").unwrap();
    assert_eq!(ma.outbound_modules, vec!["b.py".to_string(), "a.py".to_string()]);
    assert_eq!(ma.inbound_modules, vec!["a.py".to_string()]);
    let mb = model.modules.get("b.py").unwrap();
    assert!(mb.outbound_modules.is_empty());
    assert_eq!(mb.inbound_modules, vec!["a.py".to_string(), "c.py".to_string()]);
    let mc = model.modules.get("c.py").unwrap();
    assert_eq!(mc.outbound_modules, vec!["b.py".to_string()]);
    assert!(mc.inbound_modules.is_empty());
    let fb = model.files.get("b.py").unwrap();
    assert!(fb.outbound_modules.is_empty());
    assert_eq!(fb.inbound_files, vec!["a.py".to_string(), "c.py".to_string()]);
    let fa = model.files.get("a.py").unwrap();
    assert_eq!(fa.outbound_modules, vec!["b.py".to_string(), "a.py".to_string()]);
    assert_eq!(fa.inbound_files, vec!["a.py".to_string()]);
}
