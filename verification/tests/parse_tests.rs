use archdoc::config::Config;
use archdoc::errors::ArchDocError;
use archdoc::model::ParsedModule;
use archdoc::python_analyzer::PythonAnalyzer;

fn parse(code: &str) -> ParsedModule {
    let analyzer = PythonAnalyzer::new(Config::default());
    analyzer.parse_source(code, "test.py").expect("Failed to parse module")
}

#[test]
fn test_http_integration_detection() {
    let python_code = r#"
import requests

def fetch_data():
    response = requests.get("https://api.example.com/data")
    return response.json()
"#;
    let parsed_module = parse(python_code);
    assert_eq!(parsed_module.symbols.len(), 1);
    let symbol = &parsed_module.symbols[0];
    assert_eq!(symbol.id, "fetch_data");
    assert!(symbol.integrations_flags.http);
    assert!(!symbol.integrations_flags.db);
    assert!(!symbol.integrations_flags.queue);
}

#[test]
fn test_db_integration_detection() {
    let python_code = r#"
import sqlite3

def get_user(user_id):
    conn = sqlite3.connect("database.db")
    cursor = conn.cursor()
    cursor.execute("SELECT * FROM users WHERE id = ?", (user_id,))
    return cursor.fetchone()
"#;
    let parsed_module = parse(python_code);
    assert_eq!(parsed_module.symbols.len(), 1);
    let symbol = &parsed_module.symbols[0];
    assert_eq!(symbol.id, "get_user");
    assert!(!symbol.integrations_flags.http);
    assert!(symbol.integrations_flags.db);
    assert!(!symbol.integrations_flags.queue);
}

#[test]
fn test_queue_integration_detection() {
    let python_code = r#"
import redis

def process_job(job_data):
    client = redis.Redis()
    client.lpush("job_queue", job_data)
"#;
    let parsed_module = parse(python_code);
    assert_eq!(parsed_module.symbols.len(), 1);
    let symbol = &parsed_module.symbols[0];
    assert_eq!(symbol.id, "process_job");
    assert!(!symbol.integrations_flags.http);
    assert!(!symbol.integrations_flags.db);
    assert!(symbol.integrations_flags.queue);
}

#[test]
fn test_no_integration_detection() {
    let python_code = r#"
def calculate_sum(a, b):
    return a + b
"#;
    let parsed_module = parse(python_code);
    assert_eq!(parsed_module.symbols.len(), 1);
    let symbol = &parsed_module.symbols[0];
    assert_eq!(symbol.id, "calculate_sum");
    assert!(!symbol.integrations_flags.http);
    assert!(!symbol.integrations_flags.db);
    assert!(!symbol.integrations_flags.queue);
}

#[test]
fn test_analyzer_invalid_python_syntax() {
    let analyzer = PythonAnalyzer::new(Config::default());
    let result = analyzer.parse_source("invalid python syntax @@#$%", "invalid.py");
    assert!(result.is_err());
    match result.unwrap_err() {
        ArchDocError::ParseError { file, line, message } => {
            assert_eq!(file, "invalid.py");
            assert_eq!(line, 0);
            assert!(message.starts_with("Failed to parse: "));
            assert!(message.len() > "Failed to parse: ".len());
        }
        _ => panic!("Expected parse error"),
    }
}

#[test]
fn parse_source_reads_imports_definitions_and_calls() {
    let code = "import os.path as p\nfrom json import loads\n\nclass Service:\n    def run(self, x: int = 1, *a, **kw):\n        \"\"\"Runs it.\"\"\"\n        return helper(x)\n\nasync def helper(y):\n    await p.join(y)\n";
    let pm = parse(code);
    assert_eq!(pm.path, "test.py");
    assert_eq!(pm.module_id, "test.py");
    let imports: Vec<(String, Option<String>)> =
        pm.imports.iter().map(|i| (i.module_name.clone(), i.alias.clone())).collect();
    assert_eq!(
        imports,
        vec![("os.path".to_string(), Some("p".to_string())), ("json.loads".to_string(), None)]
    );
    let ids: Vec<&str> = pm.symbols.iter().map(|s| s.id.as_str()).collect();
    assert_eq!(ids, vec!["Service", "Service.run", "helper"]);
    assert_eq!(pm.symbols[1].signature, "def run(self, x: int = Int(1), *a, **kw)");
    assert_eq!(pm.symbols[1].docstring_first_line.as_deref(), Some("Runs it."));
    assert_eq!(pm.symbols[2].signature, "async def helper(y)");
    let calls: Vec<(&str, &str)> =
        pm.calls.iter().map(|c| (c.caller_symbol.as_str(), c.callee_expr.as_str())).collect();
    assert_eq!(
        calls,
        vec![("Service", "helper"), ("Service.run", "helper"), ("unknown", "p.join"), ("helper", "p.join")]
    );
}

#[test]
fn signature_carries_return_annotation() {
    let pm = parse("def f(a: int, *args, **kw) -> str:\n    pass\n\ndef g():\n    pass\n");
    assert_eq!(pm.symbols[0].signature, "def f(a: int, *args, **kw) -> str");
    assert_eq!(pm.symbols[1].signature, "def g()");
}
