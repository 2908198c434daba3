//! Extraction of imports, definitions and calls from a Python syntax tree, and their
//! resolution into a project model.

use vstd::prelude::*;
use crate::config::{Config, IntegrationPattern, ThresholdsConfig, patterns_view};
use crate::model::{Call, CallType, CallView, Import, ImportView, Symbol, SymbolView, SymbolKind,
    IntegrationFlags, SymbolMetrics, ParsedModule, ProjectModel, FileDoc, FileDocView, Module,
    ModuleView, Edge, EdgeView, EdgeType};
use crate::errors::ArchDocError;
use crate::strmap::StrMap;
use crate::python_parse::{parse_suite, python_suite};
use crate::python_ast::{PyExpr, PyStmt, PyArguments, PyParam, PyStarParam, PyComprehension,
    PyAlias, PyFunctionDef};
use crate::text::{concat2, concat3, contains_seq, str_contains, trim_seq, trim_chars,
    string_of, chars_of, str_eq, find_from, find_from_exec, string_of_range, join_seq};

verus! {

// ================================================================ expressions
/// How an expression is written in a call record or a signature: names, attribute
/// chains, constants and subscripts; anything else is `<complex_expression>`.
pub open spec fn expr_text(e: PyExpr) -> Seq<char>
    decreases e,
{
    match e {
        PyExpr::Name { id } => id@,
        PyExpr::Attribute { value, attr } => expr_text(*value) + "."@ + attr@,
        PyExpr::Constant { text, debug } => match text {
            Some(s) => "\""@ + s@ + "\""@,
            None => debug@,
        },
        PyExpr::Subscript { value, slice } => expr_text(*value) + "["@ + expr_text(*slice) + "]"@,
        _ => "<complex_expression>"@,
    }
}

/// The record of a call made by `caller` to `callee` at `line`, not yet resolved.
pub open spec fn call_view(caller: Seq<char>, callee: Seq<char>, line: usize) -> CallView {
    CallView {
        caller_symbol: caller,
        callee_expr: callee,
        line_number: line,
        call_type: CallType::Unresolved,
    }
}

/// The calls inside `e`, in pre-order: a call is recorded before the calls in its
/// callee, then those in its arguments, then those in its keyword arguments.
pub open spec fn expr_calls(e: PyExpr, caller: Seq<char>) -> Seq<CallView>
    decreases e, 0int,
{
    match e {
        PyExpr::Call { func, args, keywords, offset } => seq![
            call_view(caller, expr_text(*func), offset),
        ] + expr_calls(*func, caller) + exprs_calls(args@, caller, args@.len() as int)
            + exprs_calls(keywords@, caller, keywords@.len() as int),
        PyExpr::Attribute { value, .. } => expr_calls(*value, caller),
        PyExpr::BoolOp { values } => exprs_calls(values@, caller, values@.len() as int),
        PyExpr::BinOp { left, right } => expr_calls(*left, caller) + expr_calls(*right, caller),
        PyExpr::UnaryOp { operand } => expr_calls(*operand, caller),
        PyExpr::IfExp { test, body, orelse } => expr_calls(*test, caller) + expr_calls(*body, caller)
            + expr_calls(*orelse, caller),
        PyExpr::Dict { keys, values } => opt_exprs_calls(keys@, caller, keys@.len() as int)
            + exprs_calls(values@, caller, values@.len() as int),
        PyExpr::List { elts } => exprs_calls(elts@, caller, elts@.len() as int),
        PyExpr::Tuple { elts } => exprs_calls(elts@, caller, elts@.len() as int),
        PyExpr::ListComp { elt, generators } => expr_calls(*elt, caller) + comps_calls(
            generators@,
            caller,
            generators@.len() as int,
        ),
        PyExpr::Compare { left, comparators } => expr_calls(*left, caller) + exprs_calls(
            comparators@,
            caller,
            comparators@.len() as int,
        ),
        PyExpr::JoinedStr { values } => exprs_calls(values@, caller, values@.len() as int),
        PyExpr::FormattedValue { value } => expr_calls(*value, caller),
        PyExpr::Subscript { value, slice } => expr_calls(*value, caller) + expr_calls(
            *slice,
            caller,
        ),
        PyExpr::Starred { value } => expr_calls(*value, caller),
        PyExpr::Await { value } => expr_calls(*value, caller),
        _ => Seq::empty(),
    }
}

/// The calls inside `es[0..k]`, in order.
pub open spec fn exprs_calls(es: Seq<PyExpr>, caller: Seq<char>, k: int) -> Seq<CallView>
    decreases es, k,
{
    if k <= 0 || k > es.len() {
        Seq::empty()
    } else {
        exprs_calls(es, caller, k - 1) + expr_calls(es[k - 1], caller)
    }
}

/// The calls inside the present expressions of `es[0..k]`, in order.
pub open spec fn opt_exprs_calls(es: Seq<Option<PyExpr>>, caller: Seq<char>, k: int) -> Seq<CallView>
    decreases es, k,
{
    if k <= 0 || k > es.len() {
        Seq::empty()
    } else {
        opt_exprs_calls(es, caller, k - 1) + match es[k - 1] {
            Some(x) => expr_calls(x, caller),
            None => Seq::empty(),
        }
    }
}

/// The calls inside the comprehension clauses `gs[0..k]`: each clause's iterable, then
/// its conditions.
pub open spec fn comps_calls(gs: Seq<PyComprehension>, caller: Seq<char>, k: int) -> Seq<CallView>
    decreases gs, k,
{
    if k <= 0 || k > gs.len() {
        Seq::empty()
    } else {
        comps_calls(gs, caller, k - 1) + expr_calls(gs[k - 1].iter, caller) + exprs_calls(
            gs[k - 1].ifs@,
            caller,
            gs[k - 1].ifs@.len() as int,
        )
    }
}

/// The caller recorded for a call: the current symbol, or `unknown`.
pub open spec fn caller_name(current: Option<&str>) -> Seq<char> {
    match current {
        Some(s) => s@,
        None => "unknown"@,
    }
}

/// The analyzer of Python sources.
pub struct PythonAnalyzer {
    pub config: Config,
}

impl PythonAnalyzer {
    /// How `expr` is written in a call record or a signature.
    pub fn expr_to_string(&self, expr: &PyExpr) -> (r: String)
        ensures
            r@ == expr_text(*expr),
        decreases expr,
    {
        match expr {
            PyExpr::Name { id } => id.clone(),
            PyExpr::Attribute { value, attr } => {
                let mut r = self.expr_to_string(value);
                r.append(".");
                r.append(attr.as_str());
                r
            },
            PyExpr::Constant { text, debug } => match text {
                Some(s) => concat3("\"", s.as_str(), "\""),
                None => debug.clone(),
            },
            PyExpr::Subscript { value, slice } => {
                let mut r = self.expr_to_string(value);
                r.append("[");
                let inner = self.expr_to_string(slice);
                r.append(inner.as_str());
                r.append("]");
                r
            },
            _ => String::from_str("<complex_expression>"),
        }
    }

    /// Records the calls inside each of `es`, in order.
    fn extract_from_expressions(&self, es: &Vec<PyExpr>, current_symbol: Option<&str>, calls: &mut Vec<Call>)
        ensures
            final(calls).deep_view() == old(calls).deep_view() + exprs_calls(
                es@,
                caller_name(current_symbol),
                es@.len() as int,
            ),
        decreases es, 1int,
    {
        let ghost start = calls.deep_view();
        let ghost caller = caller_name(current_symbol);
        let n = es.len();
        let mut i: usize = 0;
        assert(start =~= start + exprs_calls(es@, caller, 0));
        while i < n
            invariant
                n == es@.len(),
                i <= n,
                caller == caller_name(current_symbol),
                calls.deep_view() == start + exprs_calls(es@, caller, i as int),
            decreases n - i,
        {
            proof {
                assert(decreases_to!(*es => es@));
                assert(decreases_to!(es@ => es@[i as int]));
            }
            self.extract_from_expression(&es[i], current_symbol, calls);
            assert(start + exprs_calls(es@, caller, i + 1) =~= start + exprs_calls(es@, caller, i as int)
                + expr_calls(es@[i as int], caller));
            i = i + 1;
        }
    }

    /// Records the calls inside `expr`: each call gets the current symbol (or `unknown`)
    /// as its caller and the text of its callee.
    pub fn extract_from_expression(&self, expr: &PyExpr, current_symbol: Option<&str>, calls: &mut Vec<Call>)
        ensures
            final(calls).deep_view() == old(calls).deep_view() + expr_calls(
                *expr,
                caller_name(current_symbol),
            ),
        decreases expr, 2int,
    {
        let ghost start = calls.deep_view();
        let ghost caller = caller_name(current_symbol);
        match expr {
            PyExpr::Call { func, args, keywords, offset } => {
                let callee_expr = self.expr_to_string(func);
                let caller_symbol = match current_symbol {
                    Some(c) => String::from_str(c),
                    None => String::from_str("unknown"),
                };
                calls.push(
                    Call {
                        caller_symbol,
                        callee_expr,
                        line_number: *offset,
                        call_type: CallType::Unresolved,
                    },
                );
                let ghost s1 = calls.deep_view();
                assert(s1 =~= start + seq![call_view(caller, expr_text(**func), *offset)]);
                self.extract_from_expression(func, current_symbol, calls);
                let ghost s2 = calls.deep_view();
                proof {
                    assert(decreases_to!(*expr => expr->Call_args));
                }
                self.extract_from_expressions(args, current_symbol, calls);
                let ghost s3 = calls.deep_view();
                proof {
                    assert(decreases_to!(*expr => expr->Call_keywords));
                }
                self.extract_from_expressions(keywords, current_symbol, calls);
                assert(calls.deep_view() =~= start + expr_calls(*expr, caller));
            },
            PyExpr::Attribute { value, .. } => {
                self.extract_from_expression(value, current_symbol, calls);
            },
            PyExpr::BoolOp { values } => {
                proof {
                    assert(decreases_to!(*expr => expr->BoolOp_values));
                }
                self.extract_from_expressions(values, current_symbol, calls);
            },
            PyExpr::BinOp { left, right } => {
                self.extract_from_expression(left, current_symbol, calls);
                self.extract_from_expression(right, current_symbol, calls);
                assert(calls.deep_view() =~= start + expr_calls(*expr, caller));
            },
            PyExpr::UnaryOp { operand } => {
                self.extract_from_expression(operand, current_symbol, calls);
            },
            PyExpr::IfExp { test, body, orelse } => {
                self.extract_from_expression(test, current_symbol, calls);
                self.extract_from_expression(body, current_symbol, calls);
                self.extract_from_expression(orelse, current_symbol, calls);
                assert(calls.deep_view() =~= start + expr_calls(*expr, caller));
            },
            PyExpr::Dict { keys, values } => {
                let n = keys.len();
                let mut i: usize = 0;
                assert(start =~= start + opt_exprs_calls(keys@, caller, 0));
                while i < n
                    invariant
                        n == keys@.len(),
                        i <= n,
                        caller == caller_name(current_symbol),
                        *expr == (PyExpr::Dict { keys: *keys, values: *values }),
                        calls.deep_view() == start + opt_exprs_calls(keys@, caller, i as int),
                    decreases n - i,
                {
                    match &keys[i] {
                        Some(k) => {
                            proof {
                                assert(decreases_to!(*expr => expr->keys));
                                assert(decreases_to!(*keys => keys@));
                                assert(decreases_to!(keys@ => keys@[i as int]));
                                assert(decreases_to!(keys@[i as int] => keys@[i as int]->0));
                            }
                            self.extract_from_expression(k, current_symbol, calls);
                        },
                        None => {},
                    }
                    assert(start + opt_exprs_calls(keys@, caller, i + 1) =~= start + opt_exprs_calls(
                        keys@,
                        caller,
                        i as int,
                    ) + match keys@[i as int] {
                        Some(x) => expr_calls(x, caller),
                        None => Seq::empty(),
                    });
                    i = i + 1;
                }
                let ghost s1 = calls.deep_view();
                proof {
                    assert(decreases_to!(*expr => expr->Dict_values));
                }
                self.extract_from_expressions(values, current_symbol, calls);
                assert(calls.deep_view() =~= start + expr_calls(*expr, caller));
            },
            PyExpr::List { elts } => {
                proof {
                    assert(decreases_to!(*expr => expr->List_elts));
                }
                self.extract_from_expressions(elts, current_symbol, calls);
            },
            PyExpr::Tuple { elts } => {
                proof {
                    assert(decreases_to!(*expr => expr->Tuple_elts));
                }
                self.extract_from_expressions(elts, current_symbol, calls);
            },
            PyExpr::ListComp { elt, generators } => {
                self.extract_from_expression(elt, current_symbol, calls);
                let ghost s1 = calls.deep_view();
                let n = generators.len();
                let mut i: usize = 0;
                assert(s1 =~= s1 + comps_calls(generators@, caller, 0));
                while i < n
                    invariant
                        n == generators@.len(),
                        i <= n,
                        caller == caller_name(current_symbol),
                        *expr == (PyExpr::ListComp { elt: *elt, generators: *generators }),
                        calls.deep_view() == s1 + comps_calls(generators@, caller, i as int),
                    decreases n - i,
                {
                    proof {
                        assert(decreases_to!(*expr => expr->generators));
                        assert(decreases_to!(*generators => generators@));
                        assert(decreases_to!(generators@ => generators@[i as int]));
                        assert(decreases_to!(generators@[i as int] => generators@[i as int].iter));
                        assert(decreases_to!(generators@[i as int] => generators@[i as int].ifs));
                    }
                    self.extract_from_expression(&generators[i].iter, current_symbol, calls);
                    self.extract_from_expressions(&generators[i].ifs, current_symbol, calls);
                    assert(s1 + comps_calls(generators@, caller, i + 1) =~= s1 + comps_calls(
                        generators@,
                        caller,
                        i as int,
                    ) + expr_calls(generators@[i as int].iter, caller) + exprs_calls(
                        generators@[i as int].ifs@,
                        caller,
                        generators@[i as int].ifs@.len() as int,
                    ));
                    i = i + 1;
                }
                assert(calls.deep_view() =~= start + expr_calls(*expr, caller));
            },
            PyExpr::Compare { left, comparators } => {
                self.extract_from_expression(left, current_symbol, calls);
                proof {
                    assert(decreases_to!(*expr => expr->comparators));
                }
                self.extract_from_expressions(comparators, current_symbol, calls);
                assert(calls.deep_view() =~= start + expr_calls(*expr, caller));
            },
            PyExpr::JoinedStr { values } => {
                proof {
                    assert(decreases_to!(*expr => expr->JoinedStr_values));
                }
                self.extract_from_expressions(values, current_symbol, calls);
            },
            PyExpr::FormattedValue { value } => {
                self.extract_from_expression(value, current_symbol, calls);
            },
            PyExpr::Subscript { value, slice } => {
                self.extract_from_expression(value, current_symbol, calls);
                self.extract_from_expression(slice, current_symbol, calls);
                assert(calls.deep_view() =~= start + expr_calls(*expr, caller));
            },
            PyExpr::Starred { value } => {
                self.extract_from_expression(value, current_symbol, calls);
            },
            PyExpr::Await { value } => {
                self.extract_from_expression(value, current_symbol, calls);
            },
            _ => {
                assert(calls.deep_view() =~= start + expr_calls(*expr, caller));
            },
        }
    }
}


// ================================================================ signatures
/// `: T` for an annotation `T`, nothing without one.
pub open spec fn annotation_text(a: Option<Box<PyExpr>>) -> Seq<char> {
    match a {
        Some(x) => ": "@ + expr_text(*x),
        None => Seq::empty(),
    }
}

/// A positional parameter as written in a signature: `name: T = default`.
pub open spec fn param_text(p: PyParam) -> Seq<char> {
    p.name@ + annotation_text(p.annotation) + match p.default {
        Some(d) => " = "@ + expr_text(*d),
        None => Seq::empty(),
    }
}

/// A `*args` or `**kwargs` parameter as written, if present.
pub open spec fn star_text(prefix: Seq<char>, p: Option<PyStarParam>) -> Seq<Seq<char>> {
    match p {
        Some(v) => seq![prefix + v.name@ + annotation_text(v.annotation)],
        None => Seq::empty(),
    }
}

/// The parameters of a signature: positional ones, then `*args`, then `**kwargs`.
pub open spec fn params_text(args: PyArguments) -> Seq<Seq<char>> {
    args.args@.map_values(|p: PyParam| param_text(p)) + star_text("*"@, args.vararg) + star_text(
        "**"@,
        args.kwarg,
    )
}

/// ` -> T` for a return annotation `T`, nothing without one.
pub open spec fn returns_text(r: Option<Box<PyExpr>>) -> Seq<char> {
    match r {
        Some(x) => " -> "@ + expr_text(*x),
        None => Seq::empty(),
    }
}

/// The signature of a function: `def name(params)`, then ` -> T` when it has a return
/// annotation `T`.
pub open spec fn signature_spec(name: Seq<char>, args: PyArguments, return_annotation: Option<Box<PyExpr>>) -> Seq<char> {
    "def "@ + name + "("@ + join_seq(params_text(args), ", "@) + ")"@ + returns_text(return_annotation)
}

/// Appends `item` to a comma-separated list built so far.
fn push_item(out: &mut String, item: &str, first: bool, Ghost(list): Ghost<Seq<Seq<char>>>)
    requires
        first <==> list.len() == 0,
        old(out)@ == join_seq(list, ", "@),
    ensures
        final(out)@ == join_seq(list.push(item@), ", "@),
{
    assert(list.push(item@).drop_last() =~= list);
    if !first {
        out.append(", ");
    }
    out.append(item);
}

impl PythonAnalyzer {
    /// The annotation suffix `: T`, or nothing.
    fn annotation_string(&self, a: &Option<Box<PyExpr>>) -> (r: String)
        ensures
            r@ == annotation_text(*a),
    {
        match a {
            Some(x) => {
                let t = self.expr_to_string(x);
                concat2(": ", t.as_str())
            },
            None => String::new(),
        }
    }

    /// The signature of a function: `def name(a: T = d, *args, **kwargs) -> R`.
    pub fn build_function_signature(&self, name: &str, args: &PyArguments, return_annotation: &Option<Box<PyExpr>>) -> (r: String)
        ensures
            r@ == signature_spec(name@, *args, *return_annotation),
    {
        let ghost params = params_text(*args);
        let mut joined = String::new();
        let ghost mut done: Seq<Seq<char>> = Seq::empty();
        let n = args.args.len();
        let mut i: usize = 0;
        while i < n
            invariant
                n == args.args@.len(),
                i <= n,
                done == args.args@.subrange(0, i as int).map_values(|p: PyParam| param_text(p)),
                joined@ == join_seq(done, ", "@),
            decreases n - i,
        {
            let p = &args.args[i];
            let mut item = p.name.clone();
            let ann = self.annotation_string(&p.annotation);
            item.append(ann.as_str());
            match &p.default {
                Some(d) => {
                    let dt = self.expr_to_string(d);
                    item.append(" = ");
                    item.append(dt.as_str());
                },
                None => {},
            }
            assert(item@ == param_text(*p));
            push_item(&mut joined, item.as_str(), i == 0, Ghost(done));
            proof {
                assert(args.args@.subrange(0, i + 1).map_values(|p: PyParam| param_text(p))
                    =~= done.push(item@));
                done = done.push(item@);
            }
            i = i + 1;
        }
        assert(args.args@.subrange(0, n as int) =~= args.args@);
        let mut nonempty: bool = n > 0;
        match &args.vararg {
            Some(v) => {
                let mut item = concat2("*", v.name.as_str());
                let ann = self.annotation_string(&v.annotation);
                item.append(ann.as_str());
                push_item(&mut joined, item.as_str(), !nonempty, Ghost(done));
                proof {
                    done = done.push(item@);
                }
                nonempty = true;
            },
            None => {},
        }
        assert(done =~= args.args@.map_values(|p: PyParam| param_text(p)) + star_text(
            "*"@,
            args.vararg,
        ));
        assert(nonempty == (done.len() > 0));
        match &args.kwarg {
            Some(v) => {
                let mut item = concat2("**", v.name.as_str());
                let ann = self.annotation_string(&v.annotation);
                item.append(ann.as_str());
                push_item(&mut joined, item.as_str(), !nonempty, Ghost(done));
                proof {
                    done = done.push(item@);
                }
            },
            None => {},
        }
        assert(done =~= params);
        let mut r = concat3("def ", name, "(");
        r.append(joined.as_str());
        r.append(")");
        match return_annotation {
            Some(x) => {
                let t = self.expr_to_string(x);
                r.append(" -> ");
                r.append(t.as_str());
            },
            None => {},
        }
        r
    }
}


// ================================================================ docstrings and integrations
/// `k` is where the first line of `t` ends: at its first line break, or at its end
/// when it has none.
pub open spec fn is_line_end(t: Seq<char>, k: int) -> bool {
    &&& 0 <= k <= t.len()
    &&& (k == t.len() || t[k] == '\n')
    &&& forall|j: int| 0 <= j < k ==> t[j] != '\n'
}

/// The first line of `t`, without its line break.
pub open spec fn first_line(t: Seq<char>) -> Seq<char> {
    t.take(choose|k: int| is_line_end(t, k))
}

/// The docstring line of a body: when its first statement is a string constant, the first
/// line of that text once trimmed (itself trimmed); none when the text is blank.
pub open spec fn docstring_spec(body: Seq<PyStmt>) -> Option<Seq<char>> {
    if body.len() > 0 {
        match body[0] {
            PyStmt::Expr { value: PyExpr::Constant { text: Some(s), .. } } => {
                let t = trim_seq(s@);
                if t.len() == 0 {
                    None
                } else {
                    Some(trim_seq(first_line(t)))
                }
            },
            _ => None,
        }
    } else {
        None
    }
}

/// Some pattern of kind `kind` names a library that occurs in `text`.
pub open spec fn mentions_kind(
    text: Seq<char>,
    patterns: Seq<(Seq<char>, Seq<Seq<char>>)>,
    kind: Seq<char>,
) -> bool {
    exists|i: int, j: int|
        0 <= i < patterns.len() && patterns[i].0 == kind && 0 <= j < patterns[i].1.len()
            && contains_seq(text, #[trigger] patterns[i].1[j])
}

/// The integrations revealed by `text` (the rendering of a body) under `config`: none
/// when detection is off; otherwise a kind is flagged when one of its library names
/// occurs in the text.
pub open spec fn integration_flags_spec(text: Seq<char>, config: Config) -> IntegrationFlags {
    let on = config.analysis.detect_integrations;
    let pats = patterns_view(config.analysis.integration_patterns);
    IntegrationFlags {
        http: on && mentions_kind(text, pats, "http"@),
        db: on && mentions_kind(text, pats, "db"@),
        queue: on && mentions_kind(text, pats, "queue"@),
    }
}

impl PythonAnalyzer {
    /// The first line of the docstring of `body`, trimmed.
    pub fn extract_docstring(&self, body: &Vec<PyStmt>) -> (r: Option<String>)
        ensures
            r.deep_view() == docstring_spec(body@),
    {
        if body.len() == 0 {
            return None;
        }
        match &body[0] {
            PyStmt::Expr { value: PyExpr::Constant { text: Some(s), .. } } => {
                let cs = chars_of(s.as_str());
                let t = trim_chars(cs.as_slice());
                if t.len() == 0 {
                    None
                } else {
                    let mut line: Vec<char> = Vec::new();
                    let mut k: usize = 0;
                    while k < t.len() && t[k] != '\n'
                        invariant
                            k <= t@.len(),
                            line@ == t@.take(k as int),
                            forall|j: int| 0 <= j < k ==> t@[j] != '\n',
                        decreases t@.len() - k,
                    {
                        line.push(t[k]);
                        k = k + 1;
                        assert(line@ =~= t@.take(k as int));
                    }
                    proof {
                        assert(is_line_end(t@, k as int));
                        let c = choose|c: int| is_line_end(t@, c);
                        if c < k {
                            assert(t@[c] != '\n');
                        } else if k < c {
                            assert(t@[k as int] != '\n');
                        }
                        assert(first_line(t@) == t@.take(k as int));
                    }
                    let d = trim_chars(line.as_slice());
                    Some(string_of(d.as_slice()))
                }
            },
            _ => None,
        }
    }

    /// Whether a library name of `pattern` occurs in `text`.
    fn pattern_matches(&self, text: &str, pattern: &IntegrationPattern) -> (r: bool)
        ensures
            r == exists|j: int|
                0 <= j < pattern.patterns@.len() && contains_seq(
                    text@,
                    #[trigger] pattern.patterns@[j]@,
                ),
    {
        let n = pattern.patterns.len();
        let mut j: usize = 0;
        while j < n
            invariant
                n == pattern.patterns@.len(),
                j <= n,
                forall|k: int| 0 <= k < j ==> !contains_seq(text@, #[trigger] pattern.patterns@[k]@),
            decreases n - j,
        {
            if str_contains(text, pattern.patterns[j].as_str()) {
                return true;
            }
            j = j + 1;
        }
        false
    }

    /// The integrations revealed by `body_text`, the rendering of a body.
    pub fn detect_integrations(&self, body_text: &str, config: &Config) -> (r: IntegrationFlags)
        ensures
            r == integration_flags_spec(body_text@, *config),
    {
        let mut flags = IntegrationFlags { http: false, db: false, queue: false };
        if !config.analysis.detect_integrations {
            return flags;
        }
        let ghost pats = patterns_view(config.analysis.integration_patterns);
        let ps = &config.analysis.integration_patterns;
        let n = ps.len();
        let mut i: usize = 0;
        while i < n
            invariant
                n == ps@.len(),
                pats == patterns_view(*ps),
                i <= n,
                flags.http == mentions_kind(body_text@, pats.take(i as int), "http"@),
                flags.db == mentions_kind(body_text@, pats.take(i as int), "db"@),
                flags.queue == mentions_kind(body_text@, pats.take(i as int), "queue"@),
            decreases n - i,
        {
            let p = &ps[i];
            let hit = self.pattern_matches(body_text, p);
            let is_http = str_eq(p.type_.as_str(), "http");
            let is_db = str_eq(p.type_.as_str(), "db");
            let is_queue = str_eq(p.type_.as_str(), "queue");
            if is_http {
                if hit {
                    flags.http = true;
                }
            } else if is_db {
                if hit {
                    flags.db = true;
                }
            } else if is_queue {
                if hit {
                    flags.queue = true;
                }
            }
            proof {
                reveal_strlit("http");
                reveal_strlit("db");
                reveal_strlit("queue");
                assert("http"@ != "db"@ && "http"@ != "queue"@ && "db"@ != "queue"@) by {
                    assert("http"@.len() != "db"@.len());
                    assert("db"@[0] != "queue"@[0]);
                    assert("http"@[0] != "queue"@[0]);
                }
                let pre = pats.take(i as int);
                let post = pats.take(i + 1);
                assert(post[i as int] == pats[i as int]);
                assert(pats[i as int].1 == p.patterns@.map_values(|s: String| s@));
                assert forall|kind: Seq<char>| #![auto]
                    mentions_kind(body_text@, post, kind) == (mentions_kind(body_text@, pre, kind)
                        || (pats[i as int].0 == kind && hit)) by {
                    if mentions_kind(body_text@, post, kind) {
                        let (a, b) = choose|a: int, b: int|
                            0 <= a < post.len() && post[a].0 == kind && 0 <= b < post[a].1.len()
                                && contains_seq(body_text@, #[trigger] post[a].1[b]);
                        if a < i {
                            assert(pre[a] == post[a]);
                        } else {
                            assert(p.patterns@[b]@ == post[a].1[b]);
                        }
                    }
                    if mentions_kind(body_text@, pre, kind) {
                        let (a, b) = choose|a: int, b: int|
                            0 <= a < pre.len() && pre[a].0 == kind && 0 <= b < pre[a].1.len()
                                && contains_seq(body_text@, #[trigger] pre[a].1[b]);
                        assert(post[a] == pre[a]);
                    }
                    if pats[i as int].0 == kind && hit {
                        let b = choose|b: int|
                            0 <= b < p.patterns@.len() && contains_seq(
                                body_text@,
                                #[trigger] p.patterns@[b]@,
                            );
                        assert(post[i as int].1[b] == p.patterns@[b]@);
                    }
                }
                assert(mentions_kind(body_text@, post, "http"@) == (mentions_kind(body_text@, pre, "http"@)
                    || (pats[i as int].0 == "http"@ && hit)));
                assert(mentions_kind(body_text@, post, "db"@) == (mentions_kind(body_text@, pre, "db"@)
                    || (pats[i as int].0 == "db"@ && hit)));
                assert(mentions_kind(body_text@, post, "queue"@) == (mentions_kind(body_text@, pre, "queue"@)
                    || (pats[i as int].0 == "queue"@ && hit)));
            }
            i = i + 1;
        }
        assert(pats.take(n as int) =~= pats);
        flags
    }
}


// ================================================================ statements (specification)
/// The id of a symbol `name` defined inside class `parent`, if any.
pub open spec fn qualname_spec(name: Seq<char>, parent: Option<Seq<char>>) -> Seq<char> {
    match parent {
        Some(c) => c + "."@ + name,
        None => name,
    }
}

/// The view of an optional string argument.
pub open spec fn opt_view(o: Option<&str>) -> Option<Seq<char>> {
    match o {
        Some(s) => Some(s@),
        None => None,
    }
}

/// The caller for calls found directly in a statement: the enclosing class, or `unknown`.
pub open spec fn parent_caller(parent: Option<Seq<char>>) -> Seq<char> {
    match parent {
        Some(c) => c,
        None => "unknown"@,
    }
}

/// Metrics before resolution.
pub open spec fn zero_metrics() -> SymbolMetrics {
    SymbolMetrics { fan_in: 0, fan_out: 0, is_critical: false, cycle_participant: false }
}

/// A freshly extracted symbol.
pub open spec fn new_symbol(
    id: Seq<char>,
    kind: SymbolKind,
    signature: Seq<char>,
    doc: Option<Seq<char>>,
    flags: IntegrationFlags,
) -> SymbolView {
    SymbolView {
        id,
        kind,
        module_id: Seq::empty(),
        file_id: Seq::empty(),
        qualname: id,
        signature,
        annotations: None,
        docstring_first_line: doc,
        purpose: "extracted from AST"@,
        outbound_calls: Seq::empty(),
        inbound_calls: Seq::empty(),
        integrations_flags: flags,
        metrics: zero_metrics(),
    }
}

/// The symbol of a function definition: a method inside a class, otherwise a function
/// (`async` ones marked so in kind and signature).
pub open spec fn def_symbol(f: PyFunctionDef, parent: Option<Seq<char>>, is_async: bool, config: Config) -> SymbolView {
    let kind = if parent is Some {
        SymbolKind::Method
    } else if is_async {
        SymbolKind::AsyncFunction
    } else {
        SymbolKind::Function
    };
    let sig = signature_spec(f.name@, f.args, f.return_annotation);
    new_symbol(
        qualname_spec(f.name@, parent),
        kind,
        if is_async { "async "@ + sig } else { sig },
        docstring_spec(f.body@),
        integration_flags_spec(f.body_debug@, config),
    )
}

/// The symbol of a class definition.
pub open spec fn class_symbol(name: Seq<char>, body: Seq<PyStmt>, body_debug: Seq<char>, config: Config) -> SymbolView {
    new_symbol(
        name,
        SymbolKind::Class,
        "class "@ + name,
        docstring_spec(body),
        integration_flags_spec(body_debug, config),
    )
}

/// The import of `a`, a name imported from `module` (empty for a plain `import`).
pub open spec fn alias_import(module: Seq<char>, a: PyAlias) -> ImportView {
    ImportView {
        module_name: if module.len() == 0 {
            a.name@
        } else {
            module + "."@ + a.name@
        },
        alias: a.asname.deep_view(),
        line_number: a.offset,
    }
}

/// The imports that a statement records, with the class it sits in.
pub open spec fn stmt_imports(s: PyStmt, parent: Option<Seq<char>>) -> Seq<ImportView>
    decreases s, 0int,
{
    match s {
        PyStmt::Import { names } => names@.map_values(|a: PyAlias| alias_import(Seq::empty(), a)),
        PyStmt::ImportFrom { module, names } => {
            let m = match module {
                Some(m) => m@,
                None => Seq::empty(),
            };
            names@.map_values(|a: PyAlias| alias_import(m, a))
        },
        PyStmt::FunctionDef(f) => stmts_imports(f.body@, parent, f.body@.len() as int),
        PyStmt::AsyncFunctionDef(f) => stmts_imports(f.body@, parent, f.body@.len() as int),
        PyStmt::ClassDef { name, body, .. } => stmts_imports(body@, Some(name@), body@.len() as int),
        _ => Seq::empty(),
    }
}

/// The imports recorded by `ss[0..k]`.
pub open spec fn stmts_imports(ss: Seq<PyStmt>, parent: Option<Seq<char>>, k: int) -> Seq<ImportView>
    decreases ss, k,
{
    if k <= 0 || k > ss.len() {
        Seq::empty()
    } else {
        stmts_imports(ss, parent, k - 1) + stmt_imports(ss[k - 1], parent)
    }
}

/// The symbols that a statement defines, each before those nested in it.
pub open spec fn stmt_symbols(s: PyStmt, parent: Option<Seq<char>>, config: Config) -> Seq<SymbolView>
    decreases s, 0int,
{
    match s {
        PyStmt::FunctionDef(f) => seq![def_symbol(f, parent, false, config)] + stmts_symbols(
            f.body@,
            parent,
            config,
            f.body@.len() as int,
        ),
        PyStmt::AsyncFunctionDef(f) => seq![def_symbol(f, parent, true, config)] + stmts_symbols(
            f.body@,
            parent,
            config,
            f.body@.len() as int,
        ),
        PyStmt::ClassDef { name, body, body_debug } => seq![
            class_symbol(name@, body@, body_debug@, config),
        ] + stmts_symbols(body@, Some(name@), config, body@.len() as int),
        _ => Seq::empty(),
    }
}

/// The symbols defined by `ss[0..k]`.
pub open spec fn stmts_symbols(ss: Seq<PyStmt>, parent: Option<Seq<char>>, config: Config, k: int) -> Seq<SymbolView>
    decreases ss, k,
{
    if k <= 0 || k > ss.len() {
        Seq::empty()
    } else {
        stmts_symbols(ss, parent, config, k - 1) + stmt_symbols(ss[k - 1], parent, config)
    }
}

/// The calls found in a statement of a body, all attributed to `caller`: expression
/// statements, returns and assignments, and the conditions, iterables, context
/// managers and bodies of compound statements (but not nested definitions).
pub open spec fn body_stmt_calls(s: PyStmt, caller: Seq<char>) -> Seq<CallView>
    decreases s, 0int,
{
    match s {
        PyStmt::Expr { value } => expr_calls(value, caller),
        PyStmt::Return { value } => match value {
            Some(v) => expr_calls(v, caller),
            None => Seq::empty(),
        },
        PyStmt::Assign { value } => expr_calls(value, caller),
        PyStmt::If { test, body, orelse } => expr_calls(test, caller) + body_calls(
            body@,
            caller,
            body@.len() as int,
        ) + body_calls(orelse@, caller, orelse@.len() as int),
        PyStmt::For { iter, body, orelse } => expr_calls(iter, caller) + body_calls(
            body@,
            caller,
            body@.len() as int,
        ) + body_calls(orelse@, caller, orelse@.len() as int),
        PyStmt::While { test, body, orelse } => expr_calls(test, caller) + body_calls(
            body@,
            caller,
            body@.len() as int,
        ) + body_calls(orelse@, caller, orelse@.len() as int),
        PyStmt::With { items, body } => exprs_calls(items@, caller, items@.len() as int) + body_calls(
            body@,
            caller,
            body@.len() as int,
        ),
        PyStmt::Try { body, handlers, orelse, finalbody } => body_calls(
            body@,
            caller,
            body@.len() as int,
        ) + handlers_calls(handlers@, caller, handlers@.len() as int) + body_calls(
            orelse@,
            caller,
            orelse@.len() as int,
        ) + body_calls(finalbody@, caller, finalbody@.len() as int),
        _ => Seq::empty(),
    }
}

/// The calls found in `ss[0..k]`, attributed to `caller`.
pub open spec fn body_calls(ss: Seq<PyStmt>, caller: Seq<char>, k: int) -> Seq<CallView>
    decreases ss, k,
{
    if k <= 0 || k > ss.len() {
        Seq::empty()
    } else {
        body_calls(ss, caller, k - 1) + body_stmt_calls(ss[k - 1], caller)
    }
}

/// The calls found in the exception handlers `hs[0..k]`.
pub open spec fn handlers_calls(hs: Seq<Vec<PyStmt>>, caller: Seq<char>, k: int) -> Seq<CallView>
    decreases hs, k,
{
    if k <= 0 || k > hs.len() {
        Seq::empty()
    } else {
        handlers_calls(hs, caller, k - 1) + body_calls(hs[k - 1]@, caller, hs[k - 1]@.len() as int)
    }
}

/// The calls that a statement records: a definition records those of its nested
/// statements and then those of its body attributed to itself; a class those of its
/// nested statements; any other statement those found in it, attributed to the
/// enclosing class or `unknown`.
pub open spec fn stmt_calls(s: PyStmt, parent: Option<Seq<char>>) -> Seq<CallView>
    decreases s, 1int,
{
    match s {
        PyStmt::FunctionDef(f) => stmts_calls(f.body@, parent, f.body@.len() as int) + body_calls(
            f.body@,
            qualname_spec(f.name@, parent),
            f.body@.len() as int,
        ),
        PyStmt::AsyncFunctionDef(f) => stmts_calls(f.body@, parent, f.body@.len() as int)
            + body_calls(f.body@, qualname_spec(f.name@, parent), f.body@.len() as int),
        PyStmt::ClassDef { name, body, .. } => stmts_calls(body@, Some(name@), body@.len() as int),
        _ => body_stmt_calls(s, parent_caller(parent)),
    }
}

/// The calls recorded by `ss[0..k]`.
pub open spec fn stmts_calls(ss: Seq<PyStmt>, parent: Option<Seq<char>>, k: int) -> Seq<CallView>
    decreases ss, k,
{
    if k <= 0 || k > ss.len() {
        Seq::empty()
    } else {
        stmts_calls(ss, parent, k - 1) + stmt_calls(ss[k - 1], parent)
    }
}


// ================================================================ statements (extraction)
/// A copy of an optional string.
pub fn clone_opt_string(o: &Option<String>) -> (r: Option<String>)
    ensures
        r.deep_view() == o.deep_view(),
{
    match o {
        Some(s) => Some(s.clone()),
        None => None,
    }
}

/// A freshly extracted symbol.
fn make_symbol(
    id: String,
    kind: SymbolKind,
    signature: String,
    doc: Option<String>,
    flags: IntegrationFlags,
) -> (r: Symbol)
    ensures
        r.deep_view() == new_symbol(id@, kind, signature@, doc.deep_view(), flags),
{
    let qualname = id.clone();
    let r = Symbol {
        id,
        kind,
        module_id: String::new(),
        file_id: String::new(),
        qualname,
        signature,
        annotations: None,
        docstring_first_line: doc,
        purpose: String::from_str("extracted from AST"),
        outbound_calls: Vec::new(),
        inbound_calls: Vec::new(),
        integrations_flags: flags,
        metrics: SymbolMetrics { fan_in: 0, fan_out: 0, is_critical: false, cycle_participant: false },
    };
    assert(r.outbound_calls.deep_view() =~= Seq::<Seq<char>>::empty());
    assert(r.inbound_calls.deep_view() =~= Seq::<Seq<char>>::empty());
    r
}

impl PythonAnalyzer {
    /// Records the calls found in one statement of a body, attributed to `caller`.
    fn extract_calls_from_body_stmt(&self, stmt: &PyStmt, caller: Option<&str>, calls: &mut Vec<Call>)
        ensures
            final(calls).deep_view() == old(calls).deep_view() + body_stmt_calls(
                *stmt,
                caller_name(caller),
            ),
        decreases stmt,
    {
        let ghost start = calls.deep_view();
        let ghost c = caller_name(caller);
        match stmt {
            PyStmt::Expr { value } => {
                self.extract_from_expression(value, caller, calls);
            },
            PyStmt::Return { value } => match value {
                Some(v) => {
                    self.extract_from_expression(v, caller, calls);
                },
                None => {
                    assert(calls.deep_view() =~= start + body_stmt_calls(*stmt, c));
                },
            },
            PyStmt::Assign { value } => {
                self.extract_from_expression(value, caller, calls);
            },
            PyStmt::If { test, body, orelse } => {
                self.extract_from_expression(test, caller, calls);
                proof {
                    assert(decreases_to!(*stmt => stmt->If_body));
                    assert(decreases_to!(*stmt => stmt->If_orelse));
                }
                self.extract_calls_from_body(body, caller, calls);
                self.extract_calls_from_body(orelse, caller, calls);
                assert(calls.deep_view() =~= start + body_stmt_calls(*stmt, c));
            },
            PyStmt::For { iter, body, orelse } => {
                self.extract_from_expression(iter, caller, calls);
                proof {
                    assert(decreases_to!(*stmt => stmt->For_body));
                    assert(decreases_to!(*stmt => stmt->For_orelse));
                }
                self.extract_calls_from_body(body, caller, calls);
                self.extract_calls_from_body(orelse, caller, calls);
                assert(calls.deep_view() =~= start + body_stmt_calls(*stmt, c));
            },
            PyStmt::While { test, body, orelse } => {
                self.extract_from_expression(test, caller, calls);
                proof {
                    assert(decreases_to!(*stmt => stmt->While_body));
                    assert(decreases_to!(*stmt => stmt->While_orelse));
                }
                self.extract_calls_from_body(body, caller, calls);
                self.extract_calls_from_body(orelse, caller, calls);
                assert(calls.deep_view() =~= start + body_stmt_calls(*stmt, c));
            },
            PyStmt::With { items, body } => {
                self.extract_from_expressions(items, caller, calls);
                proof {
                    assert(decreases_to!(*stmt => stmt->With_body));
                }
                self.extract_calls_from_body(body, caller, calls);
                assert(calls.deep_view() =~= start + body_stmt_calls(*stmt, c));
            },
            PyStmt::Try { body, handlers, orelse, finalbody } => {
                proof {
                    assert(decreases_to!(*stmt => stmt->Try_body));
                    assert(decreases_to!(*stmt => stmt->Try_orelse));
                    assert(decreases_to!(*stmt => stmt->Try_finalbody));
                }
                self.extract_calls_from_body(body, caller, calls);
                let ghost s1 = calls.deep_view();
                let n = handlers.len();
                let mut i: usize = 0;
                assert(s1 =~= s1 + handlers_calls(handlers@, c, 0));
                while i < n
                    invariant
                        n == handlers@.len(),
                        i <= n,
                        c == caller_name(caller),
                        *stmt == (PyStmt::Try {
                            body: *body,
                            handlers: *handlers,
                            orelse: *orelse,
                            finalbody: *finalbody,
                        }),
                        calls.deep_view() == s1 + handlers_calls(handlers@, c, i as int),
                    decreases n - i,
                {
                    proof {
                        assert(decreases_to!(*stmt => stmt->handlers));
                        assert(decreases_to!(*handlers => handlers@));
                        assert(decreases_to!(handlers@ => handlers@[i as int]));
                    }
                    self.extract_calls_from_body(&handlers[i], caller, calls);
                    assert(s1 + handlers_calls(handlers@, c, i + 1) =~= s1 + handlers_calls(
                        handlers@,
                        c,
                        i as int,
                    ) + body_calls(handlers@[i as int]@, c, handlers@[i as int]@.len() as int));
                    i = i + 1;
                }
                self.extract_calls_from_body(orelse, caller, calls);
                self.extract_calls_from_body(finalbody, caller, calls);
                assert(calls.deep_view() =~= start + body_stmt_calls(*stmt, c));
            },
            _ => {
                assert(calls.deep_view() =~= start + body_stmt_calls(*stmt, c));
            },
        }
    }

    /// Records the calls found in a body, attributed to `caller` (or `unknown`):
    /// expression statements, returns, assignments and the parts of compound
    /// statements, but not nested definitions.
    pub fn extract_calls_from_body(&self, body: &Vec<PyStmt>, caller: Option<&str>, calls: &mut Vec<Call>)
        ensures
            final(calls).deep_view() == old(calls).deep_view() + body_calls(
                body@,
                caller_name(caller),
                body@.len() as int,
            ),
        decreases body,
    {
        let ghost start = calls.deep_view();
        let ghost c = caller_name(caller);
        let n = body.len();
        let mut i: usize = 0;
        assert(start =~= start + body_calls(body@, c, 0));
        while i < n
            invariant
                n == body@.len(),
                i <= n,
                c == caller_name(caller),
                calls.deep_view() == start + body_calls(body@, c, i as int),
            decreases n - i,
        {
            proof {
                assert(decreases_to!(*body => body@));
                assert(decreases_to!(body@ => body@[i as int]));
            }
            self.extract_calls_from_body_stmt(&body[i], caller, calls);
            assert(start + body_calls(body@, c, i + 1) =~= start + body_calls(body@, c, i as int)
                + body_stmt_calls(body@[i as int], c));
            i = i + 1;
        }
    }
}


impl PythonAnalyzer {
    /// Handles each statement of a body in turn, inside class `parent_class` if any.
    fn extract_from_statements(
        &self,
        body: &Vec<PyStmt>,
        parent_class: Option<&str>,
        imports: &mut Vec<Import>,
        symbols: &mut Vec<Symbol>,
        calls: &mut Vec<Call>,
    )
        ensures
            final(imports).deep_view() == old(imports).deep_view() + stmts_imports(
                body@,
                opt_view(parent_class),
                body@.len() as int,
            ),
            final(symbols).deep_view() == old(symbols).deep_view() + stmts_symbols(
                body@,
                opt_view(parent_class),
                self.config,
                body@.len() as int,
            ),
            final(calls).deep_view() == old(calls).deep_view() + stmts_calls(
                body@,
                opt_view(parent_class),
                body@.len() as int,
            ),
        decreases body, 0int,
    {
        let ghost p = opt_view(parent_class);
        let ghost i0 = imports.deep_view();
        let ghost s0 = symbols.deep_view();
        let ghost c0 = calls.deep_view();
        let n = body.len();
        let mut i: usize = 0;
        assert(i0 =~= i0 + stmts_imports(body@, p, 0));
        assert(s0 =~= s0 + stmts_symbols(body@, p, self.config, 0));
        assert(c0 =~= c0 + stmts_calls(body@, p, 0));
        while i < n
            invariant
                n == body@.len(),
                i <= n,
                p == opt_view(parent_class),
                imports.deep_view() == i0 + stmts_imports(body@, p, i as int),
                symbols.deep_view() == s0 + stmts_symbols(body@, p, self.config, i as int),
                calls.deep_view() == c0 + stmts_calls(body@, p, i as int),
            decreases n - i,
        {
            proof {
                assert(decreases_to!(*body => body@));
                assert(decreases_to!(body@ => body@[i as int]));
            }
            self.extract_from_statement(&body[i], parent_class, imports, symbols, calls);
            assert(i0 + stmts_imports(body@, p, i + 1) =~= i0 + stmts_imports(body@, p, i as int)
                + stmt_imports(body@[i as int], p));
            assert(s0 + stmts_symbols(body@, p, self.config, i + 1) =~= s0 + stmts_symbols(
                body@,
                p,
                self.config,
                i as int,
            ) + stmt_symbols(body@[i as int], p, self.config));
            assert(c0 + stmts_calls(body@, p, i + 1) =~= c0 + stmts_calls(body@, p, i as int)
                + stmt_calls(body@[i as int], p));
            i = i + 1;
        }
    }

    /// The symbol of a function definition, and its qualified name.
    fn function_symbol(&self, f: &PyFunctionDef, parent_class: Option<&str>, is_async: bool) -> (r: (
        Symbol,
        String,
    ))
        ensures
            r.0.deep_view() == def_symbol(*f, opt_view(parent_class), is_async, self.config),
            r.1@ == qualname_spec(f.name@, opt_view(parent_class)),
    {
        let (kind, qualname) = match parent_class {
            Some(class_name) => (SymbolKind::Method, concat3(class_name, ".", f.name.as_str())),
            None => (
                if is_async {
                    SymbolKind::AsyncFunction
                } else {
                    SymbolKind::Function
                },
                f.name.clone(),
            ),
        };
        let sig = self.build_function_signature(f.name.as_str(), &f.args, &f.return_annotation);
        let signature = if is_async {
            concat2("async ", sig.as_str())
        } else {
            sig
        };
        let flags = self.detect_integrations(f.body_debug.as_str(), &self.config);
        let doc = self.extract_docstring(&f.body);
        let sym = make_symbol(qualname.clone(), kind, signature, doc, flags);
        (sym, qualname)
    }

    /// Records what one statement holds: its imports; the definitions in it (methods
    /// when inside class `parent_class`); and its calls.
    pub fn extract_from_statement(
        &self,
        stmt: &PyStmt,
        parent_class: Option<&str>,
        imports: &mut Vec<Import>,
        symbols: &mut Vec<Symbol>,
        calls: &mut Vec<Call>,
    )
        ensures
            final(imports).deep_view() == old(imports).deep_view() + stmt_imports(
                *stmt,
                opt_view(parent_class),
            ),
            final(symbols).deep_view() == old(symbols).deep_view() + stmt_symbols(
                *stmt,
                opt_view(parent_class),
                self.config,
            ),
            final(calls).deep_view() == old(calls).deep_view() + stmt_calls(
                *stmt,
                opt_view(parent_class),
            ),
        decreases stmt, 1int,
    {
        let ghost p = opt_view(parent_class);
        let ghost i0 = imports.deep_view();
        let ghost s0 = symbols.deep_view();
        let ghost c0 = calls.deep_view();
        match stmt {
            PyStmt::Import { names } => {
                let n = names.len();
                let mut i: usize = 0;
                while i < n
                    invariant
                        n == names@.len(),
                        i <= n,
                        imports.deep_view() == i0 + names@.subrange(0, i as int).map_values(
                            |a: PyAlias| alias_import(Seq::empty(), a),
                        ),
                    decreases n - i,
                {
                    let a = &names[i];
                    let imp = Import {
                        module_name: a.name.clone(),
                        alias: clone_opt_string(&a.asname),
                        line_number: a.offset,
                    };
                    assert(imp.deep_view() == alias_import(Seq::empty(), *a));
                    let ghost before = imports.deep_view();
                    imports.push(imp);
                    assert(imports.deep_view() =~= before.push(imp.deep_view()));
                    assert(names@.subrange(0, i + 1).map_values(
                        |a: PyAlias| alias_import(Seq::empty(), a),
                    ) =~= names@.subrange(0, i as int).map_values(
                        |a: PyAlias| alias_import(Seq::empty(), a),
                    ).push(alias_import(Seq::empty(), *a)));
                    assert(imports.deep_view() =~= i0 + names@.subrange(0, i + 1).map_values(
                        |a: PyAlias| alias_import(Seq::empty(), a),
                    ));
                    i = i + 1;
                }
                assert(names@.subrange(0, n as int) =~= names@);
                assert(symbols.deep_view() =~= s0 + stmt_symbols(*stmt, p, self.config));
                assert(calls.deep_view() =~= c0 + stmt_calls(*stmt, p));
            },
            PyStmt::ImportFrom { module, names } => {
                let module_name = match module {
                    Some(m) => m.clone(),
                    None => String::new(),
                };
                let ghost m = module_name@;
                let empty_module = module_name.unicode_len() == 0;
                let n = names.len();
                let mut i: usize = 0;
                while i < n
                    invariant
                        n == names@.len(),
                        i <= n,
                        m == module_name@,
                        empty_module == (m.len() == 0),
                        imports.deep_view() == i0 + names@.subrange(0, i as int).map_values(
                            |a: PyAlias| alias_import(m, a),
                        ),
                    decreases n - i,
                {
                    let a = &names[i];
                    let full_name = if empty_module {
                        a.name.clone()
                    } else {
                        concat3(module_name.as_str(), ".", a.name.as_str())
                    };
                    let imp = Import {
                        module_name: full_name,
                        alias: clone_opt_string(&a.asname),
                        line_number: a.offset,
                    };
                    assert(imp.deep_view() == alias_import(m, *a));
                    let ghost before = imports.deep_view();
                    imports.push(imp);
                    assert(imports.deep_view() =~= before.push(imp.deep_view()));
                    assert(names@.subrange(0, i + 1).map_values(|a: PyAlias| alias_import(m, a))
                        =~= names@.subrange(0, i as int).map_values(
                        |a: PyAlias| alias_import(m, a),
                    ).push(alias_import(m, *a)));
                    assert(imports.deep_view() =~= i0 + names@.subrange(0, i + 1).map_values(
                        |a: PyAlias| alias_import(m, a),
                    ));
                    i = i + 1;
                }
                assert(names@.subrange(0, n as int) =~= names@);
                assert(symbols.deep_view() =~= s0 + stmt_symbols(*stmt, p, self.config));
                assert(calls.deep_view() =~= c0 + stmt_calls(*stmt, p));
            },
            PyStmt::FunctionDef(f) => {
                let (sym, qualname) = self.function_symbol(f, parent_class, false);
                symbols.push(sym);
                proof {
                    assert(decreases_to!(*stmt => stmt->FunctionDef_0));
                    assert(decreases_to!(stmt->FunctionDef_0 => stmt->FunctionDef_0.body));
                }
                self.extract_from_statements(&f.body, parent_class, imports, symbols, calls);
                self.extract_calls_from_body(&f.body, Some(qualname.as_str()), calls);
                assert(imports.deep_view() =~= i0 + stmt_imports(*stmt, p));
                assert(symbols.deep_view() =~= s0 + stmt_symbols(*stmt, p, self.config));
                assert(calls.deep_view() =~= c0 + stmt_calls(*stmt, p));
            },
            PyStmt::AsyncFunctionDef(f) => {
                let (sym, qualname) = self.function_symbol(f, parent_class, true);
                symbols.push(sym);
                proof {
                    assert(decreases_to!(*stmt => stmt->AsyncFunctionDef_0));
                    assert(decreases_to!(stmt->AsyncFunctionDef_0 => stmt->AsyncFunctionDef_0.body));
                }
                self.extract_from_statements(&f.body, parent_class, imports, symbols, calls);
                self.extract_calls_from_body(&f.body, Some(qualname.as_str()), calls);
                assert(imports.deep_view() =~= i0 + stmt_imports(*stmt, p));
                assert(symbols.deep_view() =~= s0 + stmt_symbols(*stmt, p, self.config));
                assert(calls.deep_view() =~= c0 + stmt_calls(*stmt, p));
            },
            PyStmt::ClassDef { name, body, body_debug } => {
                let flags = self.detect_integrations(body_debug.as_str(), &self.config);
                let doc = self.extract_docstring(body);
                let signature = concat2("class ", name.as_str());
                let sym = make_symbol(name.clone(), SymbolKind::Class, signature, doc, flags);
                symbols.push(sym);
                proof {
                    assert(decreases_to!(*stmt => stmt->ClassDef_body));
                }
                self.extract_from_statements(body, Some(name.as_str()), imports, symbols, calls);
                assert(imports.deep_view() =~= i0 + stmt_imports(*stmt, p));
                assert(symbols.deep_view() =~= s0 + stmt_symbols(*stmt, p, self.config));
                assert(calls.deep_view() =~= c0 + stmt_calls(*stmt, p));
            },
            _ => {
                self.extract_calls_from_body_stmt(stmt, parent_class, calls);
                assert(imports.deep_view() =~= i0 + stmt_imports(*stmt, p));
                assert(symbols.deep_view() =~= s0 + stmt_symbols(*stmt, p, self.config));
            },
        }
    }
}


// ================================================================ one module
impl PythonAnalyzer {
    /// An analyzer with the given settings.
    pub fn new(config: Config) -> (r: Self)
        ensures
            r.config == config,
    {
        PythonAnalyzer { config }
    }

    /// What the statements of the file at `path` hold: its imports, definitions and
    /// calls, each statement handled at top level in turn.
    pub fn module_from_suite(&self, suite: &Vec<PyStmt>, path: &str) -> (r: ParsedModule)
        ensures
            r.path@ == path@,
            r.module_id@ == path@,
            r.imports.deep_view() == stmts_imports(suite@, None, suite@.len() as int),
            r.symbols.deep_view() == stmts_symbols(suite@, None, self.config, suite@.len() as int),
            r.calls.deep_view() == stmts_calls(suite@, None, suite@.len() as int),
    {
        let mut imports: Vec<Import> = Vec::new();
        let mut symbols: Vec<Symbol> = Vec::new();
        let mut calls: Vec<Call> = Vec::new();
        assert(imports.deep_view() =~= Seq::<ImportView>::empty());
        assert(symbols.deep_view() =~= Seq::<SymbolView>::empty());
        assert(calls.deep_view() =~= Seq::<CallView>::empty());
        self.extract_from_statements(suite, None, &mut imports, &mut symbols, &mut calls);
        assert(opt_view(None) == None::<Seq<char>>);
        assert(imports.deep_view() =~= stmts_imports(suite@, None, suite@.len() as int));
        assert(symbols.deep_view() =~= stmts_symbols(suite@, None, self.config, suite@.len() as int));
        assert(calls.deep_view() =~= stmts_calls(suite@, None, suite@.len() as int));
        ParsedModule {
            path: String::from_str(path),
            module_id: String::from_str(path),
            imports,
            symbols,
            calls,
        }
    }
}

/// `pm` is what the analyzer makes of the top-level statements `suite` of the file at
/// `path`: its imports, definitions and calls.
pub open spec fn module_of_suite(pm: ParsedModule, suite: Seq<PyStmt>, path: Seq<char>, config: Config) -> bool {
    &&& pm.path@ == path
    &&& pm.module_id@ == path
    &&& pm.imports.deep_view() == stmts_imports(suite, None, suite.len() as int)
    &&& pm.symbols.deep_view() == stmts_symbols(suite, None, config, suite.len() as int)
    &&& pm.calls.deep_view() == stmts_calls(suite, None, suite.len() as int)
}

/// What `module_of_suite` says of a module is all of it: two modules made of the same
/// statements of the same file agree in path, module id, imports, symbols and calls. As
/// `parse_source` fixes its result through `python_suite` of the text and path alone,
/// parsing the same file twice gives the same module.
pub proof fn lemma_same_suite_same_module(
    pm1: ParsedModule,
    pm2: ParsedModule,
    suite: Seq<PyStmt>,
    path: Seq<char>,
    config: Config,
)
    requires
        module_of_suite(pm1, suite, path, config),
        module_of_suite(pm2, suite, path, config),
    ensures
        pm1.path@ == pm2.path@,
        pm1.module_id@ == pm2.module_id@,
        pm1.imports.deep_view() == pm2.imports.deep_view(),
        pm1.symbols.deep_view() == pm2.symbols.deep_view(),
        pm1.calls.deep_view() == pm2.calls.deep_view(),
{
}

impl PythonAnalyzer {
    /// Parses the Python text `source` of the file at `path` into its imports,
    /// definitions and calls. Text that does not parse gives a parse error for the file,
    /// at line 0, carrying the parser's message.
    pub fn parse_source(&self, source: &str, path: &str) -> (r: Result<ParsedModule, ArchDocError>)
        ensures
            match python_suite(source@, path@) {
                Ok(stmts) => r matches Ok(pm) && module_of_suite(pm, stmts, path@, self.config),
                Err(m) => r matches Err(ArchDocError::ParseError { file, line, message }) && file@ == path@
                    && line == 0 && message@ == "Failed to parse: "@ + m,
            },
    {
        match parse_suite(source, path) {
            Ok(stmts) => Ok(self.module_from_suite(&stmts, path)),
            Err(m) => Err(
                ArchDocError::ParseError {
                    file: String::from_str(path),
                    line: 0,
                    message: concat2("Failed to parse: ", m.as_str()),
                },
            ),
        }
    }
}

// ================================================================ resolution (specification)
/// Insertion of `k -> v` into a map given by its keys (in first-insertion order) and
/// values: a present key keeps its place and gets the new value.
pub open spec fn insert_entry<V>(m: (Seq<Seq<char>>, Seq<V>), k: Seq<char>, v: V) -> (Seq<Seq<char>>, Seq<V>) {
    if m.0.contains(k) {
        (m.0, m.1.update(choose|i: int| 0 <= i < m.0.len() && m.0[i] == k, v))
    } else {
        (m.0.push(k), m.1.push(v))
    }
}

/// The map after inserting `entries` in order into an empty map.
pub open spec fn insert_entries<V>(entries: Seq<(Seq<char>, V)>) -> (Seq<Seq<char>>, Seq<V>)
    decreases entries.len(),
{
    if entries.len() == 0 {
        (Seq::empty(), Seq::empty())
    } else {
        insert_entry(insert_entries(entries.drop_last()), entries.last().0, entries.last().1)
    }
}

/// The file entry of a parsed module, before its links in the import graph are known.
pub open spec fn file_doc_spec(pm: ParsedModule) -> FileDocView {
    FileDocView {
        id: pm.path@,
        path: pm.path@,
        module_id: pm.module_id@,
        imports: pm.imports@.map_values(|i: Import| i.module_name@),
        outbound_modules: Seq::empty(),
        inbound_files: Seq::empty(),
        symbols: pm.symbols@.map_values(|s: Symbol| s.id@),
    }
}

/// The module entry of a parsed module, before its links in the import graph are known.
pub open spec fn module_spec(pm: ParsedModule) -> ModuleView {
    ModuleView {
        id: pm.module_id@,
        path: pm.path@,
        files: seq![pm.path@],
        doc_summary: None,
        outbound_modules: Seq::empty(),
        inbound_modules: Seq::empty(),
        symbols: pm.symbols@.map_values(|s: Symbol| s.id@),
    }
}

/// `s` placed in its module and file.
pub open spec fn placed_symbol(s: SymbolView, module_id: Seq<char>, file_id: Seq<char>) -> SymbolView {
    SymbolView {
        id: s.id,
        kind: s.kind,
        module_id,
        file_id,
        qualname: s.qualname,
        signature: s.signature,
        annotations: s.annotations,
        docstring_first_line: s.docstring_first_line,
        purpose: s.purpose,
        outbound_calls: s.outbound_calls,
        inbound_calls: s.inbound_calls,
        integrations_flags: s.integrations_flags,
        metrics: s.metrics,
    }
}

/// The file entries of the parsed modules, in order.
pub open spec fn file_entries(pms: Seq<ParsedModule>) -> Seq<(Seq<char>, FileDocView)> {
    pms.map_values(|pm: ParsedModule| (pm.path@, file_doc_spec(pm)))
}

/// The module entries of the parsed modules, in order.
pub open spec fn module_entries(pms: Seq<ParsedModule>) -> Seq<(Seq<char>, ModuleView)> {
    pms.map_values(|pm: ParsedModule| (pm.module_id@, module_spec(pm)))
}

/// The symbol entries of one parsed module.
pub open spec fn module_symbol_entries(pm: ParsedModule) -> Seq<(Seq<char>, SymbolView)> {
    pm.symbols@.map_values(
        |s: Symbol| (s.id@, placed_symbol(s.deep_view(), pm.module_id@, pm.path@)),
    )
}

/// The symbol entries of the parsed modules, in order.
pub open spec fn symbol_entries(pms: Seq<ParsedModule>) -> Seq<(Seq<char>, SymbolView)>
    decreases pms.len(),
{
    if pms.len() == 0 {
        Seq::empty()
    } else {
        symbol_entries(pms.drop_last()) + module_symbol_entries(pms.last())
    }
}

/// The import edges of one parsed module.
pub open spec fn module_import_edges_of(pm: ParsedModule) -> Seq<EdgeView> {
    pm.imports@.map_values(
        |i: Import| EdgeView {
            from_id: pm.module_id@,
            to_id: i.module_name@,
            edge_type: EdgeType::ModuleImport,
            meta: None,
        },
    )
}

/// The module import edges of the parsed modules, in order.
pub open spec fn module_edges_spec(pms: Seq<ParsedModule>) -> Seq<EdgeView>
    decreases pms.len(),
{
    if pms.len() == 0 {
        Seq::empty()
    } else {
        module_edges_spec(pms.drop_last()) + module_import_edges_of(pms.last())
    }
}

/// The call edges of one parsed module, before their kinds are resolved.
pub open spec fn call_edges_of(pm: ParsedModule) -> Seq<EdgeView> {
    pm.calls@.map_values(
        |c: Call| EdgeView {
            from_id: c.caller_symbol@,
            to_id: c.callee_expr@,
            edge_type: EdgeType::SymbolCall,
            meta: None,
        },
    )
}

/// The call edges of the parsed modules, in order, before their kinds are resolved.
pub open spec fn raw_call_edges(pms: Seq<ParsedModule>) -> Seq<EdgeView>
    decreases pms.len(),
{
    if pms.len() == 0 {
        Seq::empty()
    } else {
        raw_call_edges(pms.drop_last()) + call_edges_of(pms.last())
    }
}

/// The part of `s` before its first `.` (all of it without one).
pub open spec fn root_name(s: Seq<char>) -> Seq<char> {
    match find_from(s, seq!['.'], 0) {
        Some(i) => s.subrange(0, i),
        None => s,
    }
}

/// The position of the last `c` in `s`.
pub open spec fn last_index_of(s: Seq<char>, c: char) -> Option<int>
    decreases s.len(),
{
    if s.len() == 0 {
        None
    } else if s.last() == c {
        Some(s.len() - 1)
    } else {
        last_index_of(s.drop_last(), c)
    }
}

/// The part of `s` after its last `.` (all of it without one).
pub open spec fn last_segment(s: Seq<char>) -> Seq<char> {
    match last_index_of(s, '.') {
        Some(i) => s.subrange(i + 1, s.len() as int),
        None => s,
    }
}

/// `x` is the `as` name of an import of `pm`, or the last part of an imported name.
pub open spec fn module_knows_name(pm: ParsedModule, x: Seq<char>) -> bool {
    exists|i: int|
        0 <= i < pm.imports@.len() && ((#[trigger] pm.imports@[i]).alias.deep_view() == Some(x)
            || last_segment(pm.imports@[i].module_name@) == x)
}

/// `x` is the `as` name of some import of some module.
pub open spec fn is_import_alias(pms: Seq<ParsedModule>, x: Seq<char>) -> bool {
    exists|m: int, i: int|
        0 <= m < pms.len() && 0 <= i < pms[m].imports@.len() && (#[trigger] pms[m].imports@[i]).alias.deep_view()
            == Some(x)
}

/// The kind of a call to `callee`, judged with the names imported by `pm`: a call of a
/// known symbol; an outside call when its first name part is an import alias anywhere
/// or a name that `pm` imports; otherwise unresolved.
pub open spec fn call_kind_with(
    callee: Seq<char>,
    symbol_ids: Seq<Seq<char>>,
    pm: ParsedModule,
    pms: Seq<ParsedModule>,
) -> EdgeType {
    if symbol_ids.contains(callee) {
        EdgeType::SymbolCall
    } else if module_knows_name(pm, root_name(callee)) || is_import_alias(pms, root_name(callee)) {
        EdgeType::ExternalCall
    } else {
        EdgeType::UnresolvedCall
    }
}

/// `edges` with their kinds judged with the names imported by `pm`.
pub open spec fn retyped(
    edges: Seq<EdgeView>,
    symbol_ids: Seq<Seq<char>>,
    pm: ParsedModule,
    pms: Seq<ParsedModule>,
) -> Seq<EdgeView> {
    edges.map_values(
        |e: EdgeView| EdgeView {
            from_id: e.from_id,
            to_id: e.to_id,
            edge_type: call_kind_with(e.to_id, symbol_ids, pm, pms),
            meta: e.meta,
        },
    )
}

/// The call edges of the first `upto` modules, each judged with the names imported by
/// the module that makes the call.
pub open spec fn typed_call_edges(pms: Seq<ParsedModule>, upto: int, symbol_ids: Seq<Seq<char>>) -> Seq<EdgeView>
    decreases upto,
{
    if upto <= 0 {
        Seq::empty()
    } else {
        typed_call_edges(pms, upto - 1, symbol_ids) + retyped(call_edges_of(pms[upto - 1]), symbol_ids, pms[upto - 1], pms)
    }
}

/// The call edges with their kinds resolved, module by module, each with the names that
/// its own module imports.
pub open spec fn call_edges_spec(pms: Seq<ParsedModule>, symbol_ids: Seq<Seq<char>>) -> Seq<EdgeView> {
    typed_call_edges(pms, pms.len() as int, symbol_ids)
}

/// The unjudged call edges of the first `m` modules begin the unjudged call edges of all.
proof fn lemma_raw_prefix(pms: Seq<ParsedModule>, m: int)
    requires
        0 <= m <= pms.len(),
    ensures
        raw_call_edges(pms.take(m)).len() <= raw_call_edges(pms).len(),
        forall|j: int|
            0 <= j < raw_call_edges(pms.take(m)).len() ==> #[trigger] raw_call_edges(pms.take(m))[j]
                == raw_call_edges(pms)[j],
    decreases pms.len(),
{
    if m == pms.len() {
        assert(pms.take(m) =~= pms);
    } else {
        let d = pms.drop_last();
        assert(d.take(m) =~= pms.take(m));
        lemma_raw_prefix(d, m);
        assert forall|j: int| 0 <= j < raw_call_edges(pms.take(m)).len() implies #[trigger] raw_call_edges(
            pms.take(m),
        )[j] == raw_call_edges(pms)[j] by {
            assert(raw_call_edges(d.take(m))[j] == raw_call_edges(d)[j]);
        }
    }
}

/// The judged call edges of the first `m` modules keep the callers and callees of the
/// unjudged ones, and each is a call of a known symbol exactly when its callee is one.
proof fn lemma_typed_edges(pms: Seq<ParsedModule>, m: int, ids: Seq<Seq<char>>)
    requires
        0 <= m <= pms.len(),
    ensures
        ({
            let raw = raw_call_edges(pms.take(m));
            let edges = typed_call_edges(pms, m, ids);
            &&& edges.len() == raw.len()
            &&& forall|i: int|
                0 <= i < edges.len() ==> {
                    &&& (#[trigger] edges[i]).from_id == raw[i].from_id
                    &&& edges[i].to_id == raw[i].to_id
                    &&& (edges[i].edge_type == EdgeType::SymbolCall <==> ids.contains(edges[i].to_id))
                    &&& (edges[i].edge_type == EdgeType::UnresolvedCall ==> !ids.contains(edges[i].to_id))
                }
        }),
    decreases m,
{
    if m == 0 {
        assert(pms.take(0) =~= Seq::<ParsedModule>::empty());
    } else {
        lemma_typed_edges(pms, m - 1, ids);
        assert(pms.take(m).drop_last() =~= pms.take(m - 1));
        assert(pms.take(m).last() == pms[m - 1]);
        let prev = typed_call_edges(pms, m - 1, ids);
        let raw = raw_call_edges(pms.take(m));
        let edges = typed_call_edges(pms, m, ids);
        assert forall|i: int| 0 <= i < edges.len() implies {
            &&& (#[trigger] edges[i]).from_id == raw[i].from_id
            &&& edges[i].to_id == raw[i].to_id
            &&& (edges[i].edge_type == EdgeType::SymbolCall <==> ids.contains(edges[i].to_id))
            &&& (edges[i].edge_type == EdgeType::UnresolvedCall ==> !ids.contains(edges[i].to_id))
        } by {
            if i < prev.len() {
                assert(edges[i] == prev[i]);
            } else {
                assert(edges[i] == retyped(call_edges_of(pms[m - 1]), ids, pms[m - 1], pms)[i - prev.len()]);
            }
        }
    }
}

/// The number of edges leaving `id`.
pub open spec fn count_from(edges: Seq<EdgeView>, id: Seq<char>) -> nat
    decreases edges.len(),
{
    if edges.len() == 0 {
        0
    } else {
        count_from(edges.drop_last(), id) + if edges.last().from_id == id {
            1nat
        } else {
            0nat
        }
    }
}

/// The number of edges reaching `id`.
pub open spec fn count_to(edges: Seq<EdgeView>, id: Seq<char>) -> nat
    decreases edges.len(),
{
    if edges.len() == 0 {
        0
    } else {
        count_to(edges.drop_last(), id) + if edges.last().to_id == id {
            1nat
        } else {
            0nat
        }
    }
}

/// Whether a symbol with these call counts is critical under `t`: its fan-in or its
/// fan-out reaches the configured threshold, or it takes part in a cycle.
pub open spec fn is_critical_spec(fan_in: int, fan_out: int, cycle_participant: bool, t: ThresholdsConfig) -> bool {
    fan_in >= t.critical_fan_in || fan_out >= t.critical_fan_out || cycle_participant
}

/// `s`, stored under `key`, with its fan-in and fan-out over `edges`, and critical as
/// `is_critical_spec` says under `t`.
pub open spec fn with_metrics(s: SymbolView, key: Seq<char>, edges: Seq<EdgeView>, t: ThresholdsConfig) -> SymbolView {
    let fan_in = count_to(edges, key);
    let fan_out = count_from(edges, key);
    SymbolView {
        id: s.id,
        kind: s.kind,
        module_id: s.module_id,
        file_id: s.file_id,
        qualname: s.qualname,
        signature: s.signature,
        annotations: s.annotations,
        docstring_first_line: s.docstring_first_line,
        purpose: s.purpose,
        outbound_calls: s.outbound_calls,
        inbound_calls: s.inbound_calls,
        integrations_flags: s.integrations_flags,
        metrics: SymbolMetrics {
            fan_in: fan_in as usize,
            fan_out: fan_out as usize,
            is_critical: is_critical_spec(fan_in as int, fan_out as int, s.metrics.cycle_participant, t),
            cycle_participant: s.metrics.cycle_participant,
        },
    }
}


// ================================================================ resolution (execution)
/// A copy of a list of strings.
pub fn copy_strings(v: &Vec<String>) -> (r: Vec<String>)
    ensures
        r.deep_view() == v.deep_view(),
{
    let mut r: Vec<String> = Vec::new();
    let n = v.len();
    let mut i: usize = 0;
    while i < n
        invariant
            n == v@.len(),
            i <= n,
            r@.len() == i,
            forall|j: int| 0 <= j < i ==> (#[trigger] r@[j])@ == v@[j]@,
        decreases n - i,
    {
        r.push(v[i].clone());
        i = i + 1;
    }
    assert(r.deep_view() =~= v.deep_view());
    r
}

/// A copy of an optional string map.
fn copy_opt_map(o: &Option<StrMap<String>>) -> (r: Option<StrMap<String>>)
    ensures
        r.deep_view() == o.deep_view(),
{
    match o {
        Some(m) => Some(m.duplicate()),
        None => None,
    }
}

/// A copy of `s` placed in module `module_id` and file `file_id`.
fn placed_copy(s: &Symbol, module_id: &String, file_id: &String) -> (r: Symbol)
    ensures
        r.deep_view() == placed_symbol(s.deep_view(), module_id@, file_id@),
{
    Symbol {
        id: s.id.clone(),
        kind: s.kind,
        module_id: module_id.clone(),
        file_id: file_id.clone(),
        qualname: s.qualname.clone(),
        signature: s.signature.clone(),
        annotations: copy_opt_map(&s.annotations),
        docstring_first_line: clone_opt_string(&s.docstring_first_line),
        purpose: s.purpose.clone(),
        outbound_calls: copy_strings(&s.outbound_calls),
        inbound_calls: copy_strings(&s.inbound_calls),
        integrations_flags: s.integrations_flags,
        metrics: s.metrics,
    }
}

/// Inserts into `m`, following `insert_entry` on the views.
fn insert_tracked<V: DeepView>(m: &mut StrMap<V>, k: String, v: V, Ghost(acc): Ghost<(Seq<Seq<char>>, Seq<V::V>)>)
    requires
        old(m).keys() == acc.0,
        old(m).vals().map_values(|x: V| x.deep_view()) == acc.1,
    ensures
        final(m).keys() == insert_entry(acc, k@, v.deep_view()).0,
        final(m).vals().map_values(|x: V| x.deep_view()) == insert_entry(acc, k@, v.deep_view()).1,
{
    let ghost kv = k@;
    let ghost vv = v.deep_view();
    let _ = m.len();
    let _ = m.insert(k, v);
    proof {
        if acc.0.contains(kv) {
            let i = choose|i: int| 0 <= i < acc.0.len() && acc.0[i] == kv;
            assert(m.vals().map_values(|x: V| x.deep_view()) =~= acc.1.update(i, vv));
        } else {
            assert(m.vals().map_values(|x: V| x.deep_view()) =~= acc.1.push(vv));
        }
    }
}

/// The `i`-th import of some module has `as` name `x`, looking only at the modules
/// before the `m`-th and the first `i` imports of the `m`-th.
pub open spec fn alias_seen(pms: Seq<ParsedModule>, m: int, i: int, x: Seq<char>) -> bool {
    exists|a: int, b: int|
        0 <= a <= m && a < pms.len() && 0 <= b < pms[a].imports@.len() && (a < m || b < i)
            && (#[trigger] pms[a].imports@[b]).alias.deep_view() == Some(x)
}

/// The names imported by `pm` that an `as` name or a last name part makes known.
fn module_names(pm: &ParsedModule) -> (r: StrMap<String>)
    ensures
        forall|x: Seq<char>| r.keys().contains(x) <==> module_knows_name(*pm, x),
{
    let mut names: StrMap<String> = StrMap::new();
    let n = pm.imports.len();
    let mut i: usize = 0;
    while i < n
        invariant
            n == pm.imports@.len(),
            i <= n,
            forall|x: Seq<char>| names.keys().contains(x) <==> exists|j: int|
                0 <= j < i && (#[trigger] pm.imports@[j]).alias.deep_view() == Some(x),
        decreases n - i,
    {
        let ghost before = names.keys();
        match &pm.imports[i].alias {
            Some(alias) => {
                let _ = names.insert(alias.clone(), pm.imports[i].module_name.clone());
            },
            None => {},
        }
        proof {
            assert forall|x: Seq<char>| names.keys().contains(x) <==> exists|j: int|
                0 <= j < i + 1 && (#[trigger] pm.imports@[j]).alias.deep_view() == Some(x) by {
                if exists|j: int| 0 <= j < i + 1 && (#[trigger] pm.imports@[j]).alias.deep_view() == Some(x) {
                    let j = choose|j: int| 0 <= j < i + 1 && (#[trigger] pm.imports@[j]).alias.deep_view() == Some(x);
                    if j < i {
                        assert(before.contains(x));
                    }
                }
                if names.keys().contains(x) && !before.contains(x) {
                    assert(pm.imports@[i as int].alias.deep_view() == Some(x));
                }
            }
        }
        i = i + 1;
    }
    let mut k: usize = 0;
    while k < n
        invariant
            n == pm.imports@.len(),
            k <= n,
            forall|x: Seq<char>| names.keys().contains(x) <==> (exists|j: int|
                0 <= j < n && (#[trigger] pm.imports@[j]).alias.deep_view() == Some(x)) || (exists|j: int|
                0 <= j < k && last_segment((#[trigger] pm.imports@[j]).module_name@) == x),
        decreases n - k,
    {
        let ghost before = names.keys();
        let seg = last_part(pm.imports[k].module_name.as_str());
        let _ = names.insert(seg, pm.imports[k].module_name.clone());
        proof {
            assert forall|x: Seq<char>| names.keys().contains(x) <==> (exists|j: int|
                0 <= j < n && (#[trigger] pm.imports@[j]).alias.deep_view() == Some(x)) || (exists|j: int|
                0 <= j < k + 1 && last_segment((#[trigger] pm.imports@[j]).module_name@) == x) by {
                if exists|j: int| 0 <= j < k + 1 && last_segment((#[trigger] pm.imports@[j]).module_name@) == x {
                    let j = choose|j: int| 0 <= j < k + 1 && last_segment((#[trigger] pm.imports@[j]).module_name@) == x;
                    if j < k {
                        assert(before.contains(x));
                    }
                }
                if names.keys().contains(x) && !before.contains(x) {
                    assert(last_segment(pm.imports@[k as int].module_name@) == x);
                }
            }
        }
        k = k + 1;
    }
    proof {
        assert forall|x: Seq<char>| names.keys().contains(x) <==> module_knows_name(*pm, x) by {
            if module_knows_name(*pm, x) {
                let j = choose|j: int| 0 <= j < pm.imports@.len() && ((#[trigger] pm.imports@[j]).alias.deep_view() == Some(x)
                    || last_segment(pm.imports@[j].module_name@) == x);
                if pm.imports@[j].alias.deep_view() == Some(x) {
                } else {
                }
            }
        }
    }
    names
}

/// The part of `s` after its last `.`.
fn last_part(s: &str) -> (r: String)
    ensures
        r@ == last_segment(s@),
{
    let cs = chars_of(s);
    let n = cs.len();
    let mut i: usize = n;
    assert(cs@.subrange(0, n as int) =~= cs@);
    while i > 0 && cs[i - 1] != '.'
        invariant
            n == cs@.len(),
            i <= n,
            last_index_of(cs@, '.') == last_index_of(cs@.subrange(0, i as int), '.'),
        decreases i,
    {
        assert(cs@.subrange(0, i as int).drop_last() =~= cs@.subrange(0, i - 1));
        i = i - 1;
    }
    proof {
        if i > 0 {
            assert(cs@.subrange(0, i as int).last() == '.');
        } else {
            assert(cs@.subrange(0, 0) =~= Seq::<char>::empty());
        }
    }
    assert(cs@.subrange(0, n as int) =~= cs@);
    if i == 0 {
        string_of(cs.as_slice())
    } else {
        string_of_range(cs.as_slice(), i, n)
    }
}

/// The part of `s` before its first `.`.
fn first_part(s: &str) -> (r: String)
    ensures
        r@ == root_name(s@),
{
    let cs = chars_of(s);
    let dot: Vec<char> = vec!['.'];
    assert(dot@ =~= seq!['.']);
    match find_from_exec(cs.as_slice(), dot.as_slice(), 0) {
        Some(i) => {
            proof {
                crate::text::lemma_find_from_result(cs@, dot@, 0);
            }
            string_of_range(cs.as_slice(), 0, i)
        },
        None => string_of(cs.as_slice()),
    }
}


/// A copy of an edge with kind `t`.
fn retyped_edge(e: &Edge, t: EdgeType) -> (r: Edge)
    ensures
        r.deep_view() == (EdgeView {
            from_id: e.from_id@,
            to_id: e.to_id@,
            edge_type: t,
            meta: e.meta.deep_view(),
        }),
{
    Edge { from_id: e.from_id.clone(), to_id: e.to_id.clone(), edge_type: t, meta: copy_opt_map(&e.meta) }
}

/// A copy of `s` with the given call counts, critical as `is_critical_spec` says under `t`.
fn with_counts(s: &Symbol, fan_in: usize, fan_out: usize, t: &ThresholdsConfig) -> (r: Symbol)
    ensures
        r.deep_view() == (SymbolView {
            metrics: SymbolMetrics {
                fan_in,
                fan_out,
                is_critical: is_critical_spec(fan_in as int, fan_out as int, s.metrics.cycle_participant, *t),
                cycle_participant: s.metrics.cycle_participant,
            },
            ..s.deep_view()
        }),
{
    Symbol {
        id: s.id.clone(),
        kind: s.kind,
        module_id: s.module_id.clone(),
        file_id: s.file_id.clone(),
        qualname: s.qualname.clone(),
        signature: s.signature.clone(),
        annotations: copy_opt_map(&s.annotations),
        docstring_first_line: clone_opt_string(&s.docstring_first_line),
        purpose: s.purpose.clone(),
        outbound_calls: copy_strings(&s.outbound_calls),
        inbound_calls: copy_strings(&s.inbound_calls),
        integrations_flags: s.integrations_flags,
        metrics: SymbolMetrics {
            fan_in,
            fan_out,
            is_critical: fan_in >= t.critical_fan_in || fan_out >= t.critical_fan_out
                || s.metrics.cycle_participant,
            cycle_participant: s.metrics.cycle_participant,
        },
    }
}

impl PythonAnalyzer {
    /// Adds an import edge per import and a call edge per call, module by module.
    fn build_dependency_graphs(&self, project_model: &mut ProjectModel, parsed_modules: &[ParsedModule]) -> (r: Result<(), ArchDocError>)
        ensures
            r is Ok,
            final(project_model).edges.module_import_edges.deep_view() == old(project_model).edges.module_import_edges.deep_view()
                + module_edges_spec(parsed_modules@),
            final(project_model).edges.symbol_call_edges.deep_view() == old(project_model).edges.symbol_call_edges.deep_view()
                + raw_call_edges(parsed_modules@),
            final(project_model).edges.file_import_edges == old(project_model).edges.file_import_edges,
            final(project_model).modules == old(project_model).modules,
            final(project_model).files == old(project_model).files,
            final(project_model).symbols == old(project_model).symbols,
    {
        let ghost pms = parsed_modules@;
        let ghost e0 = project_model.edges.module_import_edges.deep_view();
        let ghost c0 = project_model.edges.symbol_call_edges.deep_view();
        let n = parsed_modules.len();
        let mut m: usize = 0;
        assert(pms.take(0) =~= Seq::<ParsedModule>::empty());
        assert(e0 =~= e0 + module_edges_spec(pms.take(0)));
        while m < n
            invariant
                n == pms.len(),
                pms == parsed_modules@,
                m <= n,
                project_model.edges.module_import_edges.deep_view() == e0 + module_edges_spec(pms.take(m as int)),
                project_model.edges.symbol_call_edges == old(project_model).edges.symbol_call_edges,
                project_model.edges.file_import_edges == old(project_model).edges.file_import_edges,
                project_model.modules == old(project_model).modules,
                project_model.files == old(project_model).files,
                project_model.symbols == old(project_model).symbols,
            decreases n - m,
        {
            let pm = &parsed_modules[m];
            let ghost base = project_model.edges.module_import_edges.deep_view();
            let k = pm.imports.len();
            let mut i: usize = 0;
            assert(module_import_edges_of(*pm).take(0) =~= Seq::<EdgeView>::empty());
            assert(base =~= base + module_import_edges_of(*pm).take(0));
            while i < k
                invariant
                    k == pm.imports@.len(),
                    i <= k,
                    project_model.edges.module_import_edges.deep_view() == base + module_import_edges_of(*pm).take(i as int),
                    project_model.edges.symbol_call_edges == old(project_model).edges.symbol_call_edges,
                    project_model.edges.file_import_edges == old(project_model).edges.file_import_edges,
                    project_model.modules == old(project_model).modules,
                    project_model.files == old(project_model).files,
                    project_model.symbols == old(project_model).symbols,
                decreases k - i,
            {
                let edge = Edge {
                    from_id: pm.module_id.clone(),
                    to_id: pm.imports[i].module_name.clone(),
                    edge_type: EdgeType::ModuleImport,
                    meta: None,
                };
                let ghost before = project_model.edges.module_import_edges.deep_view();
                project_model.edges.module_import_edges.push(edge);
                assert(project_model.edges.module_import_edges.deep_view() =~= before.push(edge.deep_view()));
                assert(module_import_edges_of(*pm).take(i + 1) =~= module_import_edges_of(*pm).take(i as int).push(edge.deep_view()));
                i = i + 1;
            }
            assert(module_import_edges_of(*pm).take(k as int) =~= module_import_edges_of(*pm));
            assert(pms.take(m + 1).drop_last() =~= pms.take(m as int));
            assert(pms.take(m + 1).last() == *pm);
            m = m + 1;
        }
        assert(pms.take(n as int) =~= pms);
        let mut m: usize = 0;
        assert(c0 =~= c0 + raw_call_edges(pms.take(0)));
        while m < n
            invariant
                n == pms.len(),
                pms == parsed_modules@,
                m <= n,
                project_model.edges.symbol_call_edges.deep_view() == c0 + raw_call_edges(pms.take(m as int)),
                project_model.edges.module_import_edges.deep_view() == e0 + module_edges_spec(pms),
                project_model.edges.file_import_edges == old(project_model).edges.file_import_edges,
                project_model.modules == old(project_model).modules,
                project_model.files == old(project_model).files,
                project_model.symbols == old(project_model).symbols,
            decreases n - m,
        {
            let pm = &parsed_modules[m];
            let ghost base = project_model.edges.symbol_call_edges.deep_view();
            let k = pm.calls.len();
            let mut i: usize = 0;
            assert(call_edges_of(*pm).take(0) =~= Seq::<EdgeView>::empty());
            assert(base =~= base + call_edges_of(*pm).take(0));
            while i < k
                invariant
                    k == pm.calls@.len(),
                    i <= k,
                    project_model.edges.symbol_call_edges.deep_view() == base + call_edges_of(*pm).take(i as int),
                    project_model.edges.module_import_edges.deep_view() == e0 + module_edges_spec(pms),
                    project_model.edges.file_import_edges == old(project_model).edges.file_import_edges,
                    project_model.modules == old(project_model).modules,
                    project_model.files == old(project_model).files,
                    project_model.symbols == old(project_model).symbols,
                decreases k - i,
            {
                let edge = Edge {
                    from_id: pm.calls[i].caller_symbol.clone(),
                    to_id: pm.calls[i].callee_expr.clone(),
                    edge_type: EdgeType::SymbolCall,
                    meta: None,
                };
                let ghost before = project_model.edges.symbol_call_edges.deep_view();
                project_model.edges.symbol_call_edges.push(edge);
                assert(project_model.edges.symbol_call_edges.deep_view() =~= before.push(edge.deep_view()));
                assert(call_edges_of(*pm).take(i + 1) =~= call_edges_of(*pm).take(i as int).push(edge.deep_view()));
                i = i + 1;
            }
            assert(call_edges_of(*pm).take(k as int) =~= call_edges_of(*pm));
            assert(pms.take(m + 1).drop_last() =~= pms.take(m as int));
            assert(pms.take(m + 1).last() == *pm);
            m = m + 1;
        }
        assert(pms.take(n as int) =~= pms);
        Ok(())
    }
}


impl PythonAnalyzer {
    /// Judges the kind of every call edge: a call of a known symbol, an outside call
    /// (its first name part is an import alias anywhere, or a name imported by the
    /// module that makes the call), or unresolved. The edges are those of the modules in
    /// order, so each module's names judge its own stretch of them.
    fn resolve_call_types(
        &self,
        project_model: &mut ProjectModel,
        parsed_modules: &[ParsedModule],
        import_aliases: &StrMap<String>,
    )
        requires
            forall|x: Seq<char>| import_aliases.keys().contains(x) <==> is_import_alias(parsed_modules@, x),
            old(project_model).edges.symbol_call_edges.deep_view() == raw_call_edges(parsed_modules@),
        ensures
            final(project_model).edges.symbol_call_edges.deep_view() == call_edges_spec(
                parsed_modules@,
                old(project_model).symbols.keys(),
            ),
            final(project_model).edges.module_import_edges == old(project_model).edges.module_import_edges,
            final(project_model).edges.file_import_edges == old(project_model).edges.file_import_edges,
            final(project_model).modules == old(project_model).modules,
            final(project_model).files == old(project_model).files,
            final(project_model).symbols == old(project_model).symbols,
    {
        let ghost pms = parsed_modules@;
        let ghost ids = project_model.symbols.keys();
        let ghost raw = raw_call_edges(pms);
        let n = parsed_modules.len();
        let mut m: usize = 0;
        let mut pos: usize = 0;
        let total = project_model.edges.symbol_call_edges.len();
        assert(total == project_model.edges.symbol_call_edges.deep_view().len());
        assert(pms.take(0) =~= Seq::<ParsedModule>::empty());
        while m < n
            invariant
                total == raw.len(),
                n == pms.len(),
                pms == parsed_modules@,
                m <= n,
                ids == project_model.symbols.keys(),
                forall|x: Seq<char>| import_aliases.keys().contains(x) <==> is_import_alias(pms, x),
                raw == raw_call_edges(pms),
                pos == raw_call_edges(pms.take(m as int)).len(),
                project_model.edges.symbol_call_edges.deep_view().len() == raw.len(),
                typed_call_edges(pms, m as int, ids).len() == pos,
                forall|t: int|
                    0 <= t < pos ==> (#[trigger] project_model.edges.symbol_call_edges.deep_view()[t])
                        == typed_call_edges(pms, m as int, ids)[t],
                forall|t: int|
                    pos <= t < raw.len() ==> (#[trigger] project_model.edges.symbol_call_edges.deep_view()[t]) == raw[t],
                project_model.edges.module_import_edges == old(project_model).edges.module_import_edges,
                project_model.edges.file_import_edges == old(project_model).edges.file_import_edges,
                project_model.modules == old(project_model).modules,
                project_model.files == old(project_model).files,
                project_model.symbols == old(project_model).symbols,
            decreases n - m,
        {
            let pm = &parsed_modules[m];
            let name_map = module_names(pm);
            let ghost mine = call_edges_of(*pm);
            let ghost target = retyped(mine, ids, *pm, pms);
            let ghost before = typed_call_edges(pms, m as int, ids);
            proof {
                lemma_raw_prefix(pms, m + 1);
                assert(pms.take(m + 1).drop_last() =~= pms.take(m as int));
                assert(pms.take(m + 1).last() == *pm);
                assert forall|q: int| 0 <= q < mine.len() implies raw[pos + q] == #[trigger] mine[q] by {
                    assert(raw_call_edges(pms.take(m + 1))[pos + q] == mine[q]);
                }
            }
            let k = pm.calls.len();
            let mut j: usize = 0;
            while j < k
                invariant
                    k == mine.len(),
                    mine == call_edges_of(*pm),
                    target == retyped(mine, ids, *pm, pms),
                    pos + k <= raw.len(),
                    total == raw.len(),
                    forall|q: int| 0 <= q < k ==> raw[pos + q] == #[trigger] mine[q],
                    j <= k,
                    ids == project_model.symbols.keys(),
                    forall|x: Seq<char>| import_aliases.keys().contains(x) <==> is_import_alias(pms, x),
                    forall|x: Seq<char>| name_map.keys().contains(x) <==> module_knows_name(*pm, x),
                    project_model.edges.symbol_call_edges.deep_view().len() == raw.len(),
                    before.len() == pos,
                    forall|t: int|
                        0 <= t < pos ==> (#[trigger] project_model.edges.symbol_call_edges.deep_view()[t]) == before[t],
                    forall|q: int|
                        0 <= q < j ==> (#[trigger] project_model.edges.symbol_call_edges.deep_view()[pos + q]) == target[q],
                    forall|t: int|
                        pos + j <= t < raw.len() ==> (#[trigger] project_model.edges.symbol_call_edges.deep_view()[t]) == raw[t],
                    project_model.edges.module_import_edges == old(project_model).edges.module_import_edges,
                    project_model.edges.file_import_edges == old(project_model).edges.file_import_edges,
                    project_model.modules == old(project_model).modules,
                    project_model.files == old(project_model).files,
                    project_model.symbols == old(project_model).symbols,
                decreases k - j,
            {
                let idx = pos + j;
                let ghost cur = project_model.edges.symbol_call_edges.deep_view();
                assert(cur[idx as int] == raw[idx as int]);
                assert(raw[pos + j] == mine[j as int]);
                let callee = &project_model.edges.symbol_call_edges[idx].to_id;
                let t = if project_model.symbols.contains_key(callee.as_str()) {
                    EdgeType::SymbolCall
                } else {
                    let root = first_part(callee.as_str());
                    if name_map.contains_key(root.as_str()) || import_aliases.contains_key(root.as_str()) {
                        EdgeType::ExternalCall
                    } else {
                        EdgeType::UnresolvedCall
                    }
                };
                let e = retyped_edge(&project_model.edges.symbol_call_edges[idx], t);
                assert(e.deep_view() == target[j as int]);
                project_model.edges.symbol_call_edges.set(idx, e);
                assert forall|t: int| 0 <= t < pos implies (#[trigger] project_model.edges.symbol_call_edges.deep_view()[t])
                    == before[t] by {
                    assert(project_model.edges.symbol_call_edges.deep_view()[t] == cur[t]);
                }
                assert forall|q: int| 0 <= q < j + 1 implies (#[trigger] project_model.edges.symbol_call_edges.deep_view()[pos
                    + q]) == target[q] by {
                    if q < j {
                        assert(project_model.edges.symbol_call_edges.deep_view()[pos + q] == cur[pos + q]);
                    }
                }
                assert forall|t: int| pos + j + 1 <= t < raw.len() implies (#[trigger] project_model.edges.symbol_call_edges.deep_view()[t])
                    == raw[t] by {
                    assert(project_model.edges.symbol_call_edges.deep_view()[t] == cur[t]);
                }
                j = j + 1;
            }
            proof {
                let after = typed_call_edges(pms, m + 1, ids);
                assert(after == before + target);
                assert forall|t: int| 0 <= t < pos + k implies (#[trigger] project_model.edges.symbol_call_edges.deep_view()[t])
                    == after[t] by {
                    if t >= pos {
                        assert(project_model.edges.symbol_call_edges.deep_view()[pos + (t - pos)] == target[t - pos]);
                    }
                }
            }
            pos = pos + k;
            m = m + 1;
        }
        proof {
            assert(pms.take(n as int) =~= pms);
        }
        assert(project_model.edges.symbol_call_edges.deep_view() =~= call_edges_spec(pms, ids));
    }

    /// Gives every module the modules it imports and the modules that import it, as the
    /// import edges show them.
    fn link_modules(&self, project_model: &mut ProjectModel)
        ensures
            final(project_model).modules.keys() == old(project_model).modules.keys(),
            final(project_model).modules.vals().len() == old(project_model).modules.vals().len(),
            forall|i: int|
                0 <= i < old(project_model).modules.vals().len() ==> (#[trigger] final(project_model).modules.vals()[i]).deep_view()
                    == linked_module(
                    old(project_model).modules.vals()[i].deep_view(),
                    old(project_model).edges.module_import_edges.deep_view(),
                    old(project_model).modules.keys(),
                ),
            final(project_model).edges == old(project_model).edges,
            final(project_model).symbols == old(project_model).symbols,
            final(project_model).files == old(project_model).files,
    {
        let ghost edges = project_model.edges.module_import_edges.deep_view();
        let ghost ids = project_model.modules.keys();
        let n = project_model.modules.len();
        let mut i: usize = 0;
        while i < n
            invariant
                n == old(project_model).modules.keys().len(),
                n == old(project_model).modules.vals().len(),
                i <= n,
                edges == project_model.edges.module_import_edges.deep_view(),
                ids == old(project_model).modules.keys(),
                project_model.modules.keys() == ids,
                project_model.modules.vals().len() == n,
                forall|j: int|
                    0 <= j < i ==> (#[trigger] project_model.modules.vals()[j]).deep_view() == linked_module(
                        old(project_model).modules.vals()[j].deep_view(),
                        edges,
                        ids,
                    ),
                forall|j: int| i <= j < n ==> (#[trigger] project_model.modules.vals()[j]) == old(project_model).modules.vals()[j],
                project_model.edges == old(project_model).edges,
                project_model.symbols == old(project_model).symbols,
                project_model.files == old(project_model).files,
            decreases n - i,
        {
            let m = project_model.modules.value_at(i);
            let ghost mv = m.deep_view();
            let es = &project_model.edges.module_import_edges;
            let k = es.len();
            let mut outbound: Vec<String> = Vec::new();
            let mut inbound: Vec<String> = Vec::new();
            let mut t: usize = 0;
            assert(edges.take(0) =~= Seq::<EdgeView>::empty());
            while t < k
                invariant
                    k == edges.len(),
                    edges == es.deep_view(),
                    ids == project_model.modules.keys(),
                    mv == m.deep_view(),
                    t <= k,
                    outbound.deep_view() == imported_modules(edges.take(t as int), mv.id, ids),
                    inbound.deep_view() == importing_modules(edges.take(t as int), mv.id),
                decreases k - t,
            {
                assert(edges.take(t + 1).drop_last() =~= edges.take(t as int));
                assert(edges.take(t + 1).last() == edges[t as int]);
                assert(edges[t as int] == es@[t as int].deep_view());
                if str_eq(es[t].from_id.as_str(), m.id.as_str()) && project_model.modules.contains_key(
                    es[t].to_id.as_str(),
                ) {
                    let ghost before = outbound.deep_view();
                    outbound.push(es[t].to_id.clone());
                    assert(outbound.deep_view() =~= before + seq![edges[t as int].to_id]);
                } else {
                    assert(outbound.deep_view() =~= outbound.deep_view() + Seq::<Seq<char>>::empty());
                }
                if str_eq(es[t].to_id.as_str(), m.id.as_str()) {
                    let ghost before = inbound.deep_view();
                    inbound.push(es[t].from_id.clone());
                    assert(inbound.deep_view() =~= before + seq![edges[t as int].from_id]);
                } else {
                    assert(inbound.deep_view() =~= inbound.deep_view() + Seq::<Seq<char>>::empty());
                }
                t = t + 1;
            }
            assert(edges.take(k as int) =~= edges);
            let linked = Module {
                id: m.id.clone(),
                path: m.path.clone(),
                files: copy_strings(&m.files),
                doc_summary: clone_opt_string(&m.doc_summary),
                outbound_modules: outbound,
                inbound_modules: inbound,
                symbols: copy_strings(&m.symbols),
            };
            assert(linked.deep_view() == linked_module(mv, edges, ids));
            let ghost before = project_model.modules.vals();
            project_model.modules.set_value_at(i, linked);
            assert forall|j: int| 0 <= j < i + 1 implies (#[trigger] project_model.modules.vals()[j]).deep_view()
                == linked_module(old(project_model).modules.vals()[j].deep_view(), edges, ids) by {
                if j < i {
                    assert(project_model.modules.vals()[j] == before[j]);
                }
            }
            assert forall|j: int| i + 1 <= j < n implies (#[trigger] project_model.modules.vals()[j])
                == old(project_model).modules.vals()[j] by {
                assert(project_model.modules.vals()[j] == before[j]);
            }
            i = i + 1;
        }
    }

    /// Gives every file the modules its module imports and the files that import it,
    /// as the import edges show them.
    fn link_files(&self, project_model: &mut ProjectModel)
        ensures
            final(project_model).files.keys() == old(project_model).files.keys(),
            final(project_model).files.vals().len() == old(project_model).files.vals().len(),
            forall|i: int|
                0 <= i < old(project_model).files.vals().len() ==> (#[trigger] final(project_model).files.vals()[i]).deep_view()
                    == linked_file(
                    old(project_model).files.vals()[i].deep_view(),
                    old(project_model).edges.module_import_edges.deep_view(),
                    old(project_model).modules.keys(),
                    file_pairs(
                        old(project_model).files.keys(),
                        old(project_model).files.vals().map_values(|f: FileDoc| f.deep_view()),
                    ),
                ),
            final(project_model).edges == old(project_model).edges,
            final(project_model).symbols == old(project_model).symbols,
            final(project_model).modules == old(project_model).modules,
    {
        let ghost edges = project_model.edges.module_import_edges.deep_view();
        let ghost ids = project_model.modules.keys();
        let ghost keys = project_model.files.keys();
        let ghost pairs = file_pairs(keys, old(project_model).files.vals().map_values(|f: FileDoc| f.deep_view()));
        let n = project_model.files.len();
        let mut i: usize = 0;
        while i < n
            invariant
                n == old(project_model).files.keys().len(),
                n == old(project_model).files.vals().len(),
                i <= n,
                edges == project_model.edges.module_import_edges.deep_view(),
                ids == project_model.modules.keys(),
                keys == old(project_model).files.keys(),
                pairs == file_pairs(keys, old(project_model).files.vals().map_values(|f: FileDoc| f.deep_view())),
                project_model.files.keys() == keys,
                project_model.files.vals().len() == n,
                forall|j: int| 0 <= j < n ==> (#[trigger] project_model.files.vals()[j]).module_id@ == pairs[j].1,
                forall|j: int|
                    0 <= j < i ==> (#[trigger] project_model.files.vals()[j]).deep_view() == linked_file(
                        old(project_model).files.vals()[j].deep_view(),
                        edges,
                        ids,
                        pairs,
                    ),
                forall|j: int| i <= j < n ==> (#[trigger] project_model.files.vals()[j]) == old(project_model).files.vals()[j],
                project_model.edges == old(project_model).edges,
                project_model.symbols == old(project_model).symbols,
                project_model.modules == old(project_model).modules,
            decreases n - i,
        {
            let f = project_model.files.value_at(i);
            let ghost fv = f.deep_view();
            let es = &project_model.edges.module_import_edges;
            let k = es.len();
            let mut outbound: Vec<String> = Vec::new();
            let mut inbound: Vec<String> = Vec::new();
            let mut t: usize = 0;
            assert(edges.take(0) =~= Seq::<EdgeView>::empty());
            while t < k
                invariant
                    k == edges.len(),
                    edges == es.deep_view(),
                    ids == project_model.modules.keys(),
                    keys == project_model.files.keys(),
                    n == keys.len(),
                    project_model.files.vals().len() == n,
                    pairs.len() == n,
                    forall|j: int| 0 <= j < n ==> (#[trigger] pairs[j]).0 == keys[j],
                    forall|j: int| 0 <= j < n ==> (#[trigger] project_model.files.vals()[j]).module_id@ == pairs[j].1,
                    fv == f.deep_view(),
                    t <= k,
                    outbound.deep_view() == imported_modules(edges.take(t as int), fv.module_id, ids),
                    inbound.deep_view() == importing_files(edges.take(t as int), fv.module_id, pairs),
                decreases k - t,
            {
                assert(edges.take(t + 1).drop_last() =~= edges.take(t as int));
                assert(edges.take(t + 1).last() == edges[t as int]);
                assert(edges[t as int] == es@[t as int].deep_view());
                if str_eq(es[t].from_id.as_str(), f.module_id.as_str()) && project_model.modules.contains_key(
                    es[t].to_id.as_str(),
                ) {
                    let ghost before = outbound.deep_view();
                    outbound.push(es[t].to_id.clone());
                    assert(outbound.deep_view() =~= before + seq![edges[t as int].to_id]);
                } else {
                    assert(outbound.deep_view() =~= outbound.deep_view() + Seq::<Seq<char>>::empty());
                }
                if str_eq(es[t].to_id.as_str(), f.module_id.as_str()) {
                    let ghost before = inbound.deep_view();
                    let ghost from = edges[t as int].from_id;
                    let mut j: usize = 0;
                    assert(pairs.take(0) =~= Seq::<(Seq<char>, Seq<char>)>::empty());
                    while j < n
                        invariant
                            n == keys.len(),
                            keys == project_model.files.keys(),
                            project_model.files.vals().len() == n,
                            pairs.len() == n,
                            forall|q: int| 0 <= q < n ==> (#[trigger] pairs[q]).0 == keys[q],
                            forall|q: int| 0 <= q < n ==> (#[trigger] project_model.files.vals()[q]).module_id@ == pairs[q].1,
                            from == es@[t as int].from_id@,
                            t < k,
                            k == es@.len(),
                            j <= n,
                            inbound.deep_view() == before + files_of_module(pairs.take(j as int), from),
                        decreases n - j,
                    {
                        assert(pairs.take(j + 1).drop_last() =~= pairs.take(j as int));
                        assert(pairs.take(j + 1).last() == pairs[j as int]);
                        if str_eq(project_model.files.value_at(j).module_id.as_str(), es[t].from_id.as_str()) {
                            let ghost mid = inbound.deep_view();
                            inbound.push(project_model.files.key_at(j).clone());
                            assert(inbound.deep_view() =~= mid + seq![pairs[j as int].0]);
                            assert(inbound.deep_view() =~= before + files_of_module(pairs.take(j + 1), from));
                        } else {
                            assert(files_of_module(pairs.take(j + 1), from) =~= files_of_module(pairs.take(j as int), from)
                                + Seq::<Seq<char>>::empty());
                        }
                        j = j + 1;
                    }
                    assert(pairs.take(n as int) =~= pairs);
                } else {
                    assert(inbound.deep_view() =~= inbound.deep_view() + Seq::<Seq<char>>::empty());
                }
                t = t + 1;
            }
            assert(edges.take(k as int) =~= edges);
            let linked = FileDoc {
                id: f.id.clone(),
                path: f.path.clone(),
                module_id: f.module_id.clone(),
                imports: copy_strings(&f.imports),
                outbound_modules: outbound,
                inbound_files: inbound,
                symbols: copy_strings(&f.symbols),
            };
            assert(fv == old(project_model).files.vals()[i as int].deep_view());
            assert(linked.deep_view() == linked_file(fv, edges, ids, pairs));
            let ghost before = project_model.files.vals();
            project_model.files.set_value_at(i, linked);
            assert forall|j: int| 0 <= j < n implies (#[trigger] project_model.files.vals()[j]).module_id@ == pairs[j].1 by {
                if j != i {
                    assert(project_model.files.vals()[j] == before[j]);
                }
            }
            assert forall|j: int| 0 <= j < i + 1 implies (#[trigger] project_model.files.vals()[j]).deep_view()
                == linked_file(old(project_model).files.vals()[j].deep_view(), edges, ids, pairs) by {
                if j < i {
                    assert(project_model.files.vals()[j] == before[j]);
                }
            }
            assert forall|j: int| i + 1 <= j < n implies (#[trigger] project_model.files.vals()[j])
                == old(project_model).files.vals()[j] by {
                assert(project_model.files.vals()[j] == before[j]);
            }
            i = i + 1;
        }
    }

    /// Sets every symbol's fan-in and fan-out, the number of call edges reaching and
    /// leaving its id; a symbol is critical when either reaches its threshold in the
    /// configuration, or when it takes part in a cycle.
    fn compute_metrics(&self, project_model: &mut ProjectModel) -> (r: Result<(), ArchDocError>)
        ensures
            r is Ok,
            final(project_model).symbols.keys() == old(project_model).symbols.keys(),
            final(project_model).symbols.vals().len() == old(project_model).symbols.vals().len(),
            forall|i: int|
                0 <= i < old(project_model).symbols.vals().len() ==> (#[trigger] final(project_model).symbols.vals()[i]).deep_view()
                    == with_metrics(
                    old(project_model).symbols.vals()[i].deep_view(),
                    old(project_model).symbols.keys()[i],
                    old(project_model).edges.symbol_call_edges.deep_view(),
                    self.config.thresholds,
                ),
            final(project_model).edges == old(project_model).edges,
            final(project_model).modules == old(project_model).modules,
            final(project_model).files == old(project_model).files,
    {
        let ghost edges = project_model.edges.symbol_call_edges.deep_view();
        let n = project_model.symbols.len();
        let mut i: usize = 0;
        while i < n
            invariant
                n == old(project_model).symbols.keys().len(),
                n == old(project_model).symbols.vals().len(),
                i <= n,
                edges == project_model.edges.symbol_call_edges.deep_view(),
                project_model.symbols.keys() == old(project_model).symbols.keys(),
                project_model.symbols.vals().len() == n,
                forall|j: int|
                    0 <= j < i ==> (#[trigger] project_model.symbols.vals()[j]).deep_view() == with_metrics(
                        old(project_model).symbols.vals()[j].deep_view(),
                        old(project_model).symbols.keys()[j],
                        edges,
                        self.config.thresholds,
                    ),
                forall|j: int| i <= j < n ==> (#[trigger] project_model.symbols.vals()[j]) == old(project_model).symbols.vals()[j],
                project_model.edges == old(project_model).edges,
                project_model.modules == old(project_model).modules,
                project_model.files == old(project_model).files,
            decreases n - i,
        {
            let ghost key = project_model.symbols.keys()[i as int];
            let id = project_model.symbols.key_at(i);
            let es = &project_model.edges.symbol_call_edges;
            let m = es.len();
            let mut fan_out: usize = 0;
            let mut fan_in: usize = 0;
            let mut t: usize = 0;
            assert(edges.take(0) =~= Seq::<EdgeView>::empty());
            while t < m
                invariant
                    m == edges.len(),
                    edges == es.deep_view(),
                    key == id@,
                    t <= m,
                    fan_out == count_from(edges.take(t as int), key),
                    fan_in == count_to(edges.take(t as int), key),
                    fan_out <= t,
                    fan_in <= t,
                decreases m - t,
            {
                assert(edges.take(t + 1).drop_last() =~= edges.take(t as int));
                assert(edges.take(t + 1).last() == edges[t as int]);
                if str_eq(es[t].from_id.as_str(), id.as_str()) {
                    fan_out = fan_out + 1;
                }
                if str_eq(es[t].to_id.as_str(), id.as_str()) {
                    fan_in = fan_in + 1;
                }
                t = t + 1;
            }
            assert(edges.take(m as int) =~= edges);
            let updated = with_counts(project_model.symbols.value_at(i), fan_in, fan_out, &self.config.thresholds);
            let ghost before = project_model.symbols.vals();
            project_model.symbols.set_value_at(i, updated);
            assert forall|j: int| 0 <= j < i + 1 implies (#[trigger] project_model.symbols.vals()[j]).deep_view()
                == with_metrics(old(project_model).symbols.vals()[j].deep_view(), old(project_model).symbols.keys()[j], edges, self.config.thresholds) by {
                if j < i {
                    assert(project_model.symbols.vals()[j] == before[j]);
                }
            }
            assert forall|j: int| i + 1 <= j < n implies (#[trigger] project_model.symbols.vals()[j])
                == old(project_model).symbols.vals()[j] by {
                assert(project_model.symbols.vals()[j] == before[j]);
            }
            i = i + 1;
        }
        Ok(())
    }
}


/// The modules that module `id` imports: the target of each import edge leaving it
/// that is a module of the model (`ids`), in edge order.
pub open spec fn imported_modules(edges: Seq<EdgeView>, id: Seq<char>, ids: Seq<Seq<char>>) -> Seq<Seq<char>>
    decreases edges.len(),
{
    if edges.len() == 0 {
        Seq::empty()
    } else {
        imported_modules(edges.drop_last(), id, ids) + if edges.last().from_id == id && ids.contains(
            edges.last().to_id,
        ) {
            seq![edges.last().to_id]
        } else {
            Seq::empty()
        }
    }
}

/// The modules that import module `id`: the source of each import edge reaching it, in
/// edge order.
pub open spec fn importing_modules(edges: Seq<EdgeView>, id: Seq<char>) -> Seq<Seq<char>>
    decreases edges.len(),
{
    if edges.len() == 0 {
        Seq::empty()
    } else {
        importing_modules(edges.drop_last(), id) + if edges.last().to_id == id {
            seq![edges.last().from_id]
        } else {
            Seq::empty()
        }
    }
}

/// `m` with its place in the import graph `edges` among the modules `ids`: the modules
/// it imports and the modules that import it.
pub open spec fn linked_module(m: ModuleView, edges: Seq<EdgeView>, ids: Seq<Seq<char>>) -> ModuleView {
    ModuleView {
        outbound_modules: imported_modules(edges, m.id, ids),
        inbound_modules: importing_modules(edges, m.id),
        ..m
    }
}

/// Each file's id beside the id of its module.
pub open spec fn file_pairs(keys: Seq<Seq<char>>, files: Seq<FileDocView>) -> Seq<(Seq<char>, Seq<char>)> {
    Seq::new(keys.len(), |i: int| (keys[i], files[i].module_id))
}

/// The files (`files`: each file's id and module id) of the module `m`, in order.
pub open spec fn files_of_module(files: Seq<(Seq<char>, Seq<char>)>, m: Seq<char>) -> Seq<Seq<char>>
    decreases files.len(),
{
    if files.len() == 0 {
        Seq::empty()
    } else {
        files_of_module(files.drop_last(), m) + if files.last().1 == m {
            seq![files.last().0]
        } else {
            Seq::empty()
        }
    }
}

/// The files that import module `id`: for each import edge reaching it, in edge order,
/// the files of the module it leaves.
pub open spec fn importing_files(edges: Seq<EdgeView>, id: Seq<char>, files: Seq<(Seq<char>, Seq<char>)>) -> Seq<Seq<char>>
    decreases edges.len(),
{
    if edges.len() == 0 {
        Seq::empty()
    } else {
        importing_files(edges.drop_last(), id, files) + if edges.last().to_id == id {
            files_of_module(files, edges.last().from_id)
        } else {
            Seq::empty()
        }
    }
}

/// `f` with its place in the import graph `edges`: the modules its module imports among
/// `module_ids`, and the files that import its module.
pub open spec fn linked_file(
    f: FileDocView,
    edges: Seq<EdgeView>,
    module_ids: Seq<Seq<char>>,
    files: Seq<(Seq<char>, Seq<char>)>,
) -> FileDocView {
    FileDocView {
        outbound_modules: imported_modules(edges, f.module_id, module_ids),
        inbound_files: importing_files(edges, f.module_id, files),
        ..f
    }
}

/// The files of the resolved model, in first-insertion order, each with the modules its
/// module imports and the files that import it.
pub open spec fn resolved_files(pms: Seq<ParsedModule>) -> Seq<FileDocView> {
    let placed = insert_entries(file_entries(pms));
    let pairs = file_pairs(placed.0, placed.1);
    let module_ids = insert_entries(module_entries(pms)).0;
    placed.1.map_values(|f: FileDocView| linked_file(f, module_edges_spec(pms), module_ids, pairs))
}

/// The modules of the resolved model, in first-insertion order, each with the modules it
/// imports and the modules that import it.
pub open spec fn resolved_modules(pms: Seq<ParsedModule>) -> Seq<ModuleView> {
    let placed = insert_entries(module_entries(pms));
    placed.1.map_values(|m: ModuleView| linked_module(m, module_edges_spec(pms), placed.0))
}

/// The symbols of the resolved model, keyed in first-insertion order: each parsed
/// symbol placed in its module and file (a later one with the same id replaces an
/// earlier one in place), with fan-in and fan-out over the resolved call edges and
/// critical under the thresholds `t`.
pub open spec fn resolved_symbols(pms: Seq<ParsedModule>, t: ThresholdsConfig) -> (Seq<Seq<char>>, Seq<SymbolView>) {
    let placed = insert_entries(symbol_entries(pms));
    let edges = call_edges_spec(pms, placed.0);
    (placed.0, placed.1.map(|i: int, s: SymbolView| with_metrics(s, placed.0[i], edges, t)))
}

/// The module names of a list of imports.
fn import_names(imports: &Vec<Import>) -> (r: Vec<String>)
    ensures
        r.deep_view() == imports@.map_values(|i: Import| i.module_name@),
{
    let mut r: Vec<String> = Vec::new();
    let n = imports.len();
    let mut i: usize = 0;
    while i < n
        invariant
            n == imports@.len(),
            i <= n,
            r@.len() == i,
            forall|j: int| 0 <= j < i ==> (#[trigger] r@[j])@ == imports@[j].module_name@,
        decreases n - i,
    {
        r.push(imports[i].module_name.clone());
        i = i + 1;
    }
    assert(r.deep_view() =~= imports@.map_values(|i: Import| i.module_name@));
    r
}

/// The ids of a list of symbols.
fn symbol_ids(symbols: &Vec<Symbol>) -> (r: Vec<String>)
    ensures
        r.deep_view() == symbols@.map_values(|s: Symbol| s.id@),
{
    let mut r: Vec<String> = Vec::new();
    let n = symbols.len();
    let mut i: usize = 0;
    while i < n
        invariant
            n == symbols@.len(),
            i <= n,
            r@.len() == i,
            forall|j: int| 0 <= j < i ==> (#[trigger] r@[j])@ == symbols@[j].id@,
        decreases n - i,
    {
        r.push(symbols[i].id.clone());
        i = i + 1;
    }
    assert(r.deep_view() =~= symbols@.map_values(|s: Symbol| s.id@));
    r
}

/// The `as` names of all imports of all modules.
fn collect_import_aliases(modules: &[ParsedModule]) -> (r: StrMap<String>)
    ensures
        forall|x: Seq<char>| r.keys().contains(x) <==> is_import_alias(modules@, x),
{
    let ghost pms = modules@;
    let mut aliases: StrMap<String> = StrMap::new();
    let n = modules.len();
    let mut m: usize = 0;
    while m < n
        invariant
            n == pms.len(),
            pms == modules@,
            m <= n,
            forall|x: Seq<char>| aliases.keys().contains(x) <==> alias_seen(pms, m as int, 0, x),
        decreases n - m,
    {
        let pm = &modules[m];
        let k = pm.imports.len();
        let mut i: usize = 0;
        while i < k
            invariant
                n == pms.len(),
                pms == modules@,
                m < n,
                *pm == pms[m as int],
                k == pm.imports@.len(),
                i <= k,
                forall|x: Seq<char>| aliases.keys().contains(x) <==> alias_seen(pms, m as int, i as int, x),
            decreases k - i,
        {
            let ghost before = aliases.keys();
            match &pm.imports[i].alias {
                Some(alias) => {
                    let _ = aliases.insert(alias.clone(), pm.imports[i].module_name.clone());
                },
                None => {},
            }
            proof {
                assert forall|x: Seq<char>| aliases.keys().contains(x) <==> alias_seen(pms, m as int, i + 1, x) by {
                    if alias_seen(pms, m as int, i + 1, x) {
                        let (a, b) = choose|a: int, b: int|
                            0 <= a <= m && a < pms.len() && 0 <= b < pms[a].imports@.len() && (a < m || b < i + 1)
                                && (#[trigger] pms[a].imports@[b]).alias.deep_view() == Some(x);
                        if a < m || b < i {
                            assert(alias_seen(pms, m as int, i as int, x));
                        }
                    }
                    if aliases.keys().contains(x) && !before.contains(x) {
                        assert(pms[m as int].imports@[i as int].alias.deep_view() == Some(x));
                    }
                    if before.contains(x) {
                        let (a, b) = choose|a: int, b: int|
                            0 <= a <= m && a < pms.len() && 0 <= b < pms[a].imports@.len() && (a < m || b < i)
                                && (#[trigger] pms[a].imports@[b]).alias.deep_view() == Some(x);
                        assert(alias_seen(pms, m as int, i + 1, x));
                    }
                }
            }
            i = i + 1;
        }
        proof {
            assert forall|x: Seq<char>| alias_seen(pms, m as int, k as int, x) <==> alias_seen(pms, m + 1, 0, x) by {
                if alias_seen(pms, m as int, k as int, x) {
                    let (a, b) = choose|a: int, b: int|
                        0 <= a <= m && a < pms.len() && 0 <= b < pms[a].imports@.len() && (a < m || b < k)
                            && (#[trigger] pms[a].imports@[b]).alias.deep_view() == Some(x);
                    assert(alias_seen(pms, m + 1, 0, x));
                }
                if alias_seen(pms, m + 1, 0, x) {
                    let (a, b) = choose|a: int, b: int|
                        0 <= a <= m + 1 && a < pms.len() && 0 <= b < pms[a].imports@.len() && (a < m + 1 || b < 0)
                            && (#[trigger] pms[a].imports@[b]).alias.deep_view() == Some(x);
                    assert(alias_seen(pms, m as int, k as int, x));
                }
            }
        }
        m = m + 1;
    }
    proof {
        assert forall|x: Seq<char>| aliases.keys().contains(x) <==> is_import_alias(pms, x) by {
            if alias_seen(pms, n as int, 0, x) {
                let (a, b) = choose|a: int, b: int|
                    0 <= a <= n && a < pms.len() && 0 <= b < pms[a].imports@.len() && (a < n || b < 0)
                        && (#[trigger] pms[a].imports@[b]).alias.deep_view() == Some(x);
                assert(is_import_alias(pms, x));
            }
            if is_import_alias(pms, x) {
                let (a, b) = choose|a: int, b: int|
                    0 <= a < pms.len() && 0 <= b < pms[a].imports@.len() && (#[trigger] pms[a].imports@[b]).alias.deep_view()
                        == Some(x);
                assert(alias_seen(pms, n as int, 0, x));
            }
        }
    }
    aliases
}


/// Adds the file, the placed symbols and the module of `pm` to `model`, following
/// `insert_entries` on the entries of the modules added before (`done`).
fn add_parsed_module(model: &mut ProjectModel, pm: &ParsedModule, Ghost(done): Ghost<Seq<ParsedModule>>)
    requires
        old(model).files.keys() == insert_entries(file_entries(done)).0,
        old(model).files.vals().map_values(|f: FileDoc| f.deep_view()) == insert_entries(file_entries(done)).1,
        old(model).modules.keys() == insert_entries(module_entries(done)).0,
        old(model).modules.vals().map_values(|x: Module| x.deep_view()) == insert_entries(module_entries(done)).1,
        old(model).symbols.keys() == insert_entries(symbol_entries(done)).0,
        old(model).symbols.vals().map_values(|x: Symbol| x.deep_view()) == insert_entries(symbol_entries(done)).1,
    ensures
        final(model).files.keys() == insert_entries(file_entries(done.push(*pm))).0,
        final(model).files.vals().map_values(|f: FileDoc| f.deep_view()) == insert_entries(
            file_entries(done.push(*pm)),
        ).1,
        final(model).modules.keys() == insert_entries(module_entries(done.push(*pm))).0,
        final(model).modules.vals().map_values(|x: Module| x.deep_view()) == insert_entries(
            module_entries(done.push(*pm)),
        ).1,
        final(model).symbols.keys() == insert_entries(symbol_entries(done.push(*pm))).0,
        final(model).symbols.vals().map_values(|x: Symbol| x.deep_view()) == insert_entries(
            symbol_entries(done.push(*pm)),
        ).1,
        final(model).edges == old(model).edges,
{
    let ghost all = done.push(*pm);
    let module_id = pm.module_id.clone();
    let file_id = pm.path.clone();
    let file_doc = FileDoc {
        id: file_id.clone(),
        path: pm.path.clone(),
        module_id: module_id.clone(),
        imports: import_names(&pm.imports),
        outbound_modules: Vec::new(),
        inbound_files: Vec::new(),
        symbols: symbol_ids(&pm.symbols),
    };
    assert(file_doc.outbound_modules.deep_view() =~= Seq::<Seq<char>>::empty());
    assert(file_doc.inbound_files.deep_view() =~= Seq::<Seq<char>>::empty());
    assert(file_doc.deep_view() == file_doc_spec(*pm));
    insert_tracked(&mut model.files, file_id.clone(), file_doc, Ghost(insert_entries(file_entries(done))));
    assert(file_entries(all).drop_last() =~= file_entries(done));
    assert(file_entries(all).last() == (pm.path@, file_doc_spec(*pm)));

    let ghost mse = module_symbol_entries(*pm);
    let ghost base = symbol_entries(done);
    let k = pm.symbols.len();
    let mut i: usize = 0;
    assert(base + mse.take(0) =~= base);
    while i < k
        invariant
            k == pm.symbols@.len(),
            mse == module_symbol_entries(*pm),
            base == symbol_entries(done),
            module_id@ == pm.module_id@,
            file_id@ == pm.path@,
            i <= k,
            model.symbols.keys() == insert_entries(base + mse.take(i as int)).0,
            model.symbols.vals().map_values(|x: Symbol| x.deep_view()) == insert_entries(base + mse.take(i as int)).1,
            model.edges == old(model).edges,
            model.modules == old(model).modules,
            model.files.keys() == insert_entries(file_entries(all)).0,
            model.files.vals().map_values(|f: FileDoc| f.deep_view()) == insert_entries(file_entries(all)).1,
        decreases k - i,
    {
        let sym = placed_copy(&pm.symbols[i], &module_id, &file_id);
        let ghost acc = insert_entries(base + mse.take(i as int));
        insert_tracked(&mut model.symbols, pm.symbols[i].id.clone(), sym, Ghost(acc));
        assert((base + mse.take(i + 1)).drop_last() =~= base + mse.take(i as int));
        assert((base + mse.take(i + 1)).last() == mse[i as int]);
        i = i + 1;
    }
    assert(mse.take(k as int) =~= mse);
    assert(all.drop_last() =~= done);

    let mut files: Vec<String> = Vec::new();
    files.push(file_id.clone());
    let module = Module {
        id: module_id.clone(),
        path: pm.path.clone(),
        files,
        doc_summary: None,
        outbound_modules: Vec::new(),
        inbound_modules: Vec::new(),
        symbols: symbol_ids(&pm.symbols),
    };
    assert(module.files.deep_view() =~= seq![pm.path@]);
    assert(module.outbound_modules.deep_view() =~= Seq::<Seq<char>>::empty());
    assert(module.inbound_modules.deep_view() =~= Seq::<Seq<char>>::empty());
    assert(module.deep_view() == module_spec(*pm));
    insert_tracked(&mut model.modules, module_id, module, Ghost(insert_entries(module_entries(done))));
    assert(module_entries(all).drop_last() =~= module_entries(done));
    assert(module_entries(all).last() == (pm.module_id@, module_spec(*pm)));
}

impl PythonAnalyzer {
    /// Builds the project model from the parsed modules: a file and a module per parsed
    /// module and every symbol placed in them (keyed by id; a later entry with the same
    /// id replaces an earlier one), the import and call edges, each module's and file's
    /// imported modules and importers, the kinds of the call edges (each judged with the imports of
    /// the module that makes the call) and each symbol's fan-in and fan-out. It never fails.
    pub fn resolve_symbols(&self, modules: &[ParsedModule]) -> (r: Result<ProjectModel, ArchDocError>)
        ensures
            match r {
                Ok(model) => {
                    &&& model.files.keys() == insert_entries(file_entries(modules@)).0
                    &&& model.files.vals().map_values(|f: FileDoc| f.deep_view()) == resolved_files(modules@)
                    &&& model.modules.keys() == insert_entries(module_entries(modules@)).0
                    &&& model.modules.vals().map_values(|x: Module| x.deep_view()) == resolved_modules(modules@)
                    &&& model.symbols.keys() == resolved_symbols(modules@, self.config.thresholds).0
                    &&& model.symbols.vals().map_values(|x: Symbol| x.deep_view()) == resolved_symbols(modules@, self.config.thresholds).1
                    &&& model.edges.module_import_edges.deep_view() == module_edges_spec(modules@)
                    &&& model.edges.file_import_edges@ == Seq::<Edge>::empty()
                    &&& model.edges.symbol_call_edges.deep_view() == call_edges_spec(modules@, model.symbols.keys())
                },
                Err(_) => false,
            },
    {
        let ghost pms = modules@;
        let mut model = ProjectModel::new();
        let aliases = collect_import_aliases(modules);
        let n = modules.len();
        let mut m: usize = 0;
        assert(pms.take(0) =~= Seq::<ParsedModule>::empty());
        assert(model.files.vals().map_values(|f: FileDoc| f.deep_view()) =~= Seq::<FileDocView>::empty());
        assert(model.modules.vals().map_values(|x: Module| x.deep_view()) =~= Seq::<ModuleView>::empty());
        assert(model.symbols.vals().map_values(|x: Symbol| x.deep_view()) =~= Seq::<SymbolView>::empty());
        assert(file_entries(pms.take(0)) =~= Seq::<(Seq<char>, FileDocView)>::empty());
        assert(module_entries(pms.take(0)) =~= Seq::<(Seq<char>, ModuleView)>::empty());
        while m < n
            invariant
                n == pms.len(),
                pms == modules@,
                m <= n,
                model.files.keys() == insert_entries(file_entries(pms.take(m as int))).0,
                model.files.vals().map_values(|f: FileDoc| f.deep_view()) == insert_entries(
                    file_entries(pms.take(m as int)),
                ).1,
                model.modules.keys() == insert_entries(module_entries(pms.take(m as int))).0,
                model.modules.vals().map_values(|x: Module| x.deep_view()) == insert_entries(
                    module_entries(pms.take(m as int)),
                ).1,
                model.symbols.keys() == insert_entries(symbol_entries(pms.take(m as int))).0,
                model.symbols.vals().map_values(|x: Symbol| x.deep_view()) == insert_entries(
                    symbol_entries(pms.take(m as int)),
                ).1,
                model.edges.module_import_edges@ == Seq::<Edge>::empty(),
                model.edges.file_import_edges@ == Seq::<Edge>::empty(),
                model.edges.symbol_call_edges@ == Seq::<Edge>::empty(),
            decreases n - m,
        {
            add_parsed_module(&mut model, &modules[m], Ghost(pms.take(m as int)));
            assert(pms.take(m as int).push(pms[m as int]) =~= pms.take(m + 1));
            m = m + 1;
        }
        assert(pms.take(n as int) =~= pms);
        let ghost placed = insert_entries(symbol_entries(pms));
        assert(model.edges.module_import_edges.deep_view() =~= Seq::<EdgeView>::empty());
        assert(model.edges.symbol_call_edges.deep_view() =~= Seq::<EdgeView>::empty());
        match self.build_dependency_graphs(&mut model, modules) {
            Ok(()) => {},
            Err(e) => {
                return Err(e);
            },
        }
        assert(Seq::<EdgeView>::empty() + module_edges_spec(pms) =~= module_edges_spec(pms));
        assert(Seq::<EdgeView>::empty() + raw_call_edges(pms) =~= raw_call_edges(pms));
        let ghost placed_modules = model.modules.vals();
        let ghost placed_files = model.files.vals();
        self.link_modules(&mut model);
        self.link_files(&mut model);
        assert(model.files.vals().map_values(|f: FileDoc| f.deep_view()) =~= resolved_files(pms)) by {
            assert(placed_files.map_values(|f: FileDoc| f.deep_view()) =~= insert_entries(file_entries(pms)).1);
            assert forall|i: int| 0 <= i < model.files.vals().len() implies
                (#[trigger] model.files.vals()[i]).deep_view() == resolved_files(pms)[i] by {
                assert(placed_files.map_values(|f: FileDoc| f.deep_view())[i] == insert_entries(file_entries(pms)).1[i]);
            }
        }
        assert(model.modules.vals().map_values(|x: Module| x.deep_view()) =~= resolved_modules(pms)) by {
            assert forall|i: int| 0 <= i < model.modules.vals().len() implies
                (#[trigger] model.modules.vals()[i]).deep_view() == resolved_modules(pms)[i] by {
                assert(placed_modules.map_values(|x: Module| x.deep_view())[i] == insert_entries(module_entries(pms)).1[i]);
            }
        }
        self.resolve_call_types(&mut model, modules, &aliases);
        let ghost edges = model.edges.symbol_call_edges.deep_view();
        let ghost before = model.symbols.vals();
        let _ = model.symbols.len();
        assert(edges == call_edges_spec(pms, placed.0));
        match self.compute_metrics(&mut model) {
            Ok(()) => {},
            Err(e) => {
                return Err(e);
            },
        }
        let _ = model.symbols.len();
        assert(model.symbols.vals().map_values(|x: Symbol| x.deep_view()) =~= resolved_symbols(pms, self.config.thresholds).1) by {
            assert forall|i: int| 0 <= i < model.symbols.vals().len() implies
                (#[trigger] model.symbols.vals()[i]).deep_view() == resolved_symbols(pms, self.config.thresholds).1[i] by {
                assert(before.map_values(|x: Symbol| x.deep_view())[i] == placed.1[i]);
            }
        }
        Ok(model)
    }
}


/// Resolution keeps every call edge in place with its caller and callee, and judges it
/// a call of a known symbol exactly when its callee is the id of a symbol of the model;
/// an unresolved call names no symbol of the model.
pub proof fn lemma_call_edge_kinds(pms: Seq<ParsedModule>)
    ensures
        ({
            let ids = insert_entries(symbol_entries(pms)).0;
            let raw = raw_call_edges(pms);
            let edges = call_edges_spec(pms, ids);
            &&& edges.len() == raw.len()
            &&& forall|i: int|
                0 <= i < edges.len() ==> {
                    &&& (#[trigger] edges[i]).from_id == raw[i].from_id
                    &&& edges[i].to_id == raw[i].to_id
                    &&& (edges[i].edge_type == EdgeType::SymbolCall <==> ids.contains(edges[i].to_id))
                    &&& (edges[i].edge_type == EdgeType::UnresolvedCall ==> !ids.contains(edges[i].to_id))
                }
        }),
{
    assert(pms.take(pms.len() as int) =~= pms);
    lemma_typed_edges(pms, pms.len() as int, insert_entries(symbol_entries(pms)).0);
}


/// A count of edges is at most the number of edges.
proof fn lemma_counts_bounded(edges: Seq<EdgeView>, id: Seq<char>)
    ensures
        count_from(edges, id) <= edges.len(),
        count_to(edges, id) <= edges.len(),
    decreases edges.len(),
{
    if edges.len() > 0 {
        lemma_counts_bounded(edges.drop_last(), id);
    }
}

/// Which resolved symbols are critical: exactly those whose fan-in reaches the configured
/// `critical_fan_in`, whose fan-out reaches `critical_fan_out`, or that take part in a
/// cycle. In particular a symbol that calls at least `critical_fan_out` times is critical
/// whatever its fan-in, and one below both thresholds outside any cycle is not. (The
/// counts are those recorded in the symbol; the number of calls fits in `usize`, as it
/// does for any model that was built.)
pub proof fn lemma_critical_by_thresholds(pms: Seq<ParsedModule>, t: ThresholdsConfig)
    requires
        raw_call_edges(pms).len() <= usize::MAX,
    ensures
        forall|i: int|
            0 <= i < resolved_symbols(pms, t).1.len() ==> {
                let m = (#[trigger] resolved_symbols(pms, t).1[i]).metrics;
                &&& m.is_critical == (m.fan_in >= t.critical_fan_in || m.fan_out >= t.critical_fan_out
                    || m.cycle_participant)
                &&& (m.fan_out >= t.critical_fan_out ==> m.is_critical)
                &&& (m.fan_in >= t.critical_fan_in ==> m.is_critical)
            },
{
    let placed = insert_entries(symbol_entries(pms));
    let edges = call_edges_spec(pms, placed.0);
    assert(pms.take(pms.len() as int) =~= pms);
    lemma_typed_edges(pms, pms.len() as int, placed.0);
    assert forall|i: int| 0 <= i < resolved_symbols(pms, t).1.len() implies {
        let m = (#[trigger] resolved_symbols(pms, t).1[i]).metrics;
        &&& m.is_critical == (m.fan_in >= t.critical_fan_in || m.fan_out >= t.critical_fan_out
            || m.cycle_participant)
        &&& (m.fan_out >= t.critical_fan_out ==> m.is_critical)
        &&& (m.fan_in >= t.critical_fan_in ==> m.is_critical)
    } by {
        lemma_counts_bounded(edges, placed.0[i]);
        assert(resolved_symbols(pms, t).1[i] == with_metrics(placed.1[i], placed.0[i], edges, t));
    }
}

/// What kind of symbol a definition gives: a top-level `def` a function, a top-level
/// `async def` an async function, either inside a class a method, and a class a class;
/// the symbol is named by the definition, and an `async def` outside a class has a
/// signature that starts with `async def `.
pub proof fn lemma_definition_kinds(f: PyFunctionDef, name: String, body: Vec<PyStmt>, body_debug: String, class: Seq<char>, config: Config)
    ensures
        stmt_symbols(PyStmt::FunctionDef(f), None, config)[0].kind == SymbolKind::Function,
        stmt_symbols(PyStmt::FunctionDef(f), None, config)[0].id == f.name@,
        stmt_symbols(PyStmt::AsyncFunctionDef(f), None, config)[0].kind == SymbolKind::AsyncFunction,
        stmt_symbols(PyStmt::AsyncFunctionDef(f), None, config)[0].id == f.name@,
        stmt_symbols(PyStmt::AsyncFunctionDef(f), None, config)[0].signature.take(10) == "async def "@,
        stmt_symbols(PyStmt::FunctionDef(f), Some(class), config)[0].kind == SymbolKind::Method,
        stmt_symbols(PyStmt::AsyncFunctionDef(f), Some(class), config)[0].kind == SymbolKind::Method,
        stmt_symbols(PyStmt::ClassDef { name, body, body_debug }, None, config)[0].kind == SymbolKind::Class,
        stmt_symbols(PyStmt::ClassDef { name, body, body_debug }, None, config)[0].id == name@,
{
    reveal_strlit("async ");
    reveal_strlit("def ");
    reveal_strlit("async def ");
    let sig = signature_spec(f.name@, f.args, f.return_annotation);
    assert(("async "@ + sig).take(10) =~= "async def "@);
}

/// The symbols of the statements `ss[0..n]` include the first symbol of each of them that
/// defines one.
proof fn lemma_stmts_symbols_include(ss: Seq<PyStmt>, parent: Option<Seq<char>>, config: Config, n: int, k: int)
    requires
        0 <= k < n <= ss.len(),
        stmt_symbols(ss[k], parent, config).len() > 0,
    ensures
        stmts_symbols(ss, parent, config, n).contains(stmt_symbols(ss[k], parent, config)[0]),
    decreases n,
{
    let x = stmt_symbols(ss[k], parent, config)[0];
    let prev = stmts_symbols(ss, parent, config, n - 1);
    let last = stmt_symbols(ss[n - 1], parent, config);
    assert(stmts_symbols(ss, parent, config, n) == prev + last);
    if k < n - 1 {
        lemma_stmts_symbols_include(ss, parent, config, n - 1, k);
        let j = choose|j: int| 0 <= j < prev.len() && prev[j] == x;
        assert((prev + last)[j] == x);
    } else {
        assert((prev + last)[prev.len() as int] == x);
    }
}

/// A parsed module holds, for each top-level `async def`, an async-function symbol named
/// by it, and for each top-level `def` a function symbol named by it.
pub proof fn lemma_module_definition_kinds(pm: ParsedModule, suite: Seq<PyStmt>, path: Seq<char>, config: Config, k: int)
    requires
        module_of_suite(pm, suite, path, config),
        0 <= k < suite.len(),
    ensures
        suite[k] matches PyStmt::AsyncFunctionDef(f) ==> exists|j: int|
            0 <= j < pm.symbols.deep_view().len() && (#[trigger] pm.symbols.deep_view()[j]).id == f.name@
                && pm.symbols.deep_view()[j].kind == SymbolKind::AsyncFunction,
        suite[k] matches PyStmt::FunctionDef(f) ==> exists|j: int|
            0 <= j < pm.symbols.deep_view().len() && (#[trigger] pm.symbols.deep_view()[j]).id == f.name@
                && pm.symbols.deep_view()[j].kind == SymbolKind::Function,
{
    let syms = stmts_symbols(suite, None, config, suite.len() as int);
    match suite[k] {
        PyStmt::AsyncFunctionDef(f) => {
            lemma_definition_kinds(f, f.name, f.body, f.body_debug, Seq::empty(), config);
            lemma_stmts_symbols_include(suite, None, config, suite.len() as int, k);
            let j = choose|j: int| 0 <= j < syms.len() && syms[j] == stmt_symbols(suite[k], None, config)[0];
            assert(pm.symbols.deep_view()[j] == syms[j]);
        },
        PyStmt::FunctionDef(f) => {
            lemma_definition_kinds(f, f.name, f.body, f.body_debug, Seq::empty(), config);
            lemma_stmts_symbols_include(suite, None, config, suite.len() as int, k);
            let j = choose|j: int| 0 <= j < syms.len() && syms[j] == stmt_symbols(suite[k], None, config)[0];
            assert(pm.symbols.deep_view()[j] == syms[j]);
        },
        _ => {},
    }
}

} // verus!
