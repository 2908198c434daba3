//! Parsing Python source text with rustpython, and carrying the parser's syntax tree
//! over, node for node, into the `Py*` types that the analyzer reads.
//!
//! The parse itself is the parser's: what it yields for a text is named by
//! `python_suite`. The functions below that take a parser node only rename its parts
//! into the library's types; none of them decides anything.

use vstd::prelude::*;
use crate::python_ast::{PyAlias, PyArguments, PyComprehension, PyExpr, PyFunctionDef, PyParam, PyStarParam, PyStmt};
use rustpython_ast::text_size::TextRange;
use rustpython_ast::{Alias, Arg, Arguments, ExceptHandler, Expr, Stmt};
use rustpython_parser::Parse;

verus! {

/// A statement of the parser's syntax tree.
#[verifier::external_type_specification]
#[verifier::external_body]
#[verifier::reject_recursive_types(R)]
pub struct ExParserStmt<R>(rustpython_ast::Stmt<R>);

/// An expression of the parser's syntax tree.
#[verifier::external_type_specification]
#[verifier::external_body]
#[verifier::reject_recursive_types(R)]
pub struct ExParserExpr<R>(rustpython_ast::Expr<R>);

/// The parameter list of a parsed function.
#[verifier::external_type_specification]
#[verifier::external_body]
#[verifier::reject_recursive_types(R)]
pub struct ExParserArguments<R>(rustpython_ast::Arguments<R>);

/// A parsed parameter without a default.
#[verifier::external_type_specification]
#[verifier::external_body]
#[verifier::reject_recursive_types(R)]
pub struct ExParserArg<R>(rustpython_ast::Arg<R>);

/// A name of a parsed import statement.
#[verifier::external_type_specification]
#[verifier::external_body]
#[verifier::reject_recursive_types(R)]
pub struct ExParserAlias<R>(rustpython_ast::Alias<R>);

/// The source span that the parser attaches to each node.
#[verifier::external_type_specification]
#[verifier::external_body]
pub struct ExParserRange(rustpython_ast::text_size::TextRange);

/// What the parser makes of the Python text `source` read from `path`: the statements
/// of the module, or the text of its syntax error.
pub uninterp spec fn python_suite(source: Seq<char>, path: Seq<char>) -> Result<Seq<PyStmt>, Seq<char>>;

/// Parses `source` as a Python module (`rustpython_parser`'s `Parse` for `ast::Suite`,
/// with `path` as the source path) and carries its statements over into `PyStmt`s; a
/// syntax error gives its `Display` text.
///
/// The result is named by `python_suite` of the two texts: the parser reads nothing
/// else. What it is for a given text is the parser's grammar and is not stated.
#[verifier::external_body]
pub(crate) fn parse_suite(source: &str, path: &str) -> (r: Result<Vec<PyStmt>, String>)
    ensures
        match r {
            Ok(stmts) => python_suite(source@, path@) == Ok::<Seq<PyStmt>, Seq<char>>(stmts@),
            Err(m) => python_suite(source@, path@) == Err::<Seq<PyStmt>, Seq<char>>(m@),
        },
{
    match rustpython_ast::Suite::parse(source, path) {
        Ok(suite) => Ok(py_stmts(&suite)),
        Err(e) => Err(e.to_string()),
    }
}

/// The parser's `Debug` text of a statement list: the rendering that integration
/// detection reads.
#[verifier::external_body]
fn debug_text(body: &[Stmt<TextRange>]) -> String {
    format!("{:?}", body)
}

/// Each parsed expression carried over.
#[verifier::external_body]
fn py_exprs(es: &[Expr<TextRange>]) -> Vec<PyExpr> {
    es.iter().map(py_expr).collect()
}

/// A parsed expression carried over, boxed.
#[verifier::external_body]
fn py_boxed(e: &Expr<TextRange>) -> Box<PyExpr> {
    Box::new(py_expr(e))
}

/// An optional parsed expression carried over.
#[verifier::external_body]
fn py_opt_boxed(e: &Option<Box<Expr<TextRange>>>) -> Option<Box<PyExpr>> {
    e.as_ref().map(|x| py_boxed(x))
}

/// A parsed expression carried over: calls and the forms whose parts hold calls.
#[verifier::external_body]
fn py_expr(e: &Expr<TextRange>) -> PyExpr {
    match e {
        Expr::Call(c) => PyExpr::Call {
            func: py_boxed(&c.func),
            args: py_exprs(&c.args),
            keywords: c.keywords.iter().map(|k| py_expr(&k.value)).collect(),
            offset: c.range.start().into(),
        },
        Expr::Attribute(a) => PyExpr::Attribute { value: py_boxed(&a.value), attr: a.attr.to_string() },
        Expr::BoolOp(b) => PyExpr::BoolOp { values: py_exprs(&b.values) },
        Expr::BinOp(b) => PyExpr::BinOp { left: py_boxed(&b.left), right: py_boxed(&b.right) },
        other => py_expr_compound(other),
    }
}

/// A parsed expression carried over: conditionals and displays.
#[verifier::external_body]
fn py_expr_compound(e: &Expr<TextRange>) -> PyExpr {
    match e {
        Expr::UnaryOp(u) => PyExpr::UnaryOp { operand: py_boxed(&u.operand) },
        Expr::IfExp(i) => PyExpr::IfExp { test: py_boxed(&i.test), body: py_boxed(&i.body), orelse: py_boxed(&i.orelse) },
        Expr::Dict(d) => PyExpr::Dict { keys: d.keys.iter().map(|k| k.as_ref().map(py_expr)).collect(), values: py_exprs(&d.values) },
        Expr::List(l) => PyExpr::List { elts: py_exprs(&l.elts) },
        Expr::Tuple(t) => PyExpr::Tuple { elts: py_exprs(&t.elts) },
        other => py_expr_nested(other),
    }
}

/// A parsed expression carried over: comprehensions, comparisons and f-strings.
#[verifier::external_body]
fn py_expr_nested(e: &Expr<TextRange>) -> PyExpr {
    match e {
        Expr::ListComp(c) => PyExpr::ListComp {
            elt: py_boxed(&c.elt),
            generators: c.generators.iter().map(|g| PyComprehension { iter: py_expr(&g.iter), ifs: py_exprs(&g.ifs) }).collect(),
        },
        Expr::Compare(c) => PyExpr::Compare { left: py_boxed(&c.left), comparators: py_exprs(&c.comparators) },
        Expr::JoinedStr(j) => PyExpr::JoinedStr { values: py_exprs(&j.values) },
        Expr::FormattedValue(f) => PyExpr::FormattedValue { value: py_boxed(&f.value) },
        other => py_expr_simple(other),
    }
}

/// A parsed expression carried over: subscripts, names, constants and the rest.
#[verifier::external_body]
fn py_expr_simple(e: &Expr<TextRange>) -> PyExpr {
    match e {
        Expr::Subscript(s) => PyExpr::Subscript { value: py_boxed(&s.value), slice: py_boxed(&s.slice) },
        Expr::Starred(s) => PyExpr::Starred { value: py_boxed(&s.value) },
        Expr::Await(a) => PyExpr::Await { value: py_boxed(&a.value) },
        Expr::Name(n) => PyExpr::Name { id: n.id.to_string() },
        Expr::Constant(c) => PyExpr::Constant { text: c.value.as_str().map(|s| s.to_string()), debug: format!("{:?}", c.value) },
        _ => PyExpr::Other,
    }
}

/// A parsed `*args` or `**kwargs` parameter carried over.
#[verifier::external_body]
fn py_star(v: &Option<Box<Arg<TextRange>>>) -> Option<PyStarParam> {
    v.as_ref().map(|v| PyStarParam { name: v.arg.to_string(), annotation: py_opt_boxed(&v.annotation) })
}

/// A parsed parameter list carried over (positional parameters with their defaults).
#[verifier::external_body]
fn py_arguments(a: &Arguments<TextRange>) -> PyArguments {
    PyArguments {
        args: a.args.iter().map(|p| PyParam {
            name: p.def.arg.to_string(),
            annotation: py_opt_boxed(&p.def.annotation),
            default: py_opt_boxed(&p.default),
        }).collect(),
        vararg: py_star(&a.vararg),
        kwarg: py_star(&a.kwarg),
    }
}

/// The names of a parsed import statement carried over, with their byte offsets.
#[verifier::external_body]
fn py_aliases(names: &[Alias<TextRange>]) -> Vec<PyAlias> {
    names.iter().map(|a| PyAlias {
        name: a.name.to_string(),
        asname: a.asname.as_ref().map(|n| n.to_string()),
        offset: a.range.start().into(),
    }).collect()
}

/// Each parsed statement carried over.
#[verifier::external_body]
fn py_stmts(body: &[Stmt<TextRange>]) -> Vec<PyStmt> {
    body.iter().map(py_stmt).collect()
}

/// A parsed function definition carried over, from its name, parameters, return
/// annotation and body.
#[verifier::external_body]
fn py_def(
    name: String,
    args: &Arguments<TextRange>,
    return_annotation: &Option<Box<Expr<TextRange>>>,
    body: &[Stmt<TextRange>],
) -> PyFunctionDef {
    PyFunctionDef {
        name,
        args: py_arguments(args),
        return_annotation: py_opt_boxed(return_annotation),
        body: py_stmts(body),
        body_debug: debug_text(body),
    }
}

/// A parsed statement carried over: imports and definitions.
#[verifier::external_body]
fn py_stmt(s: &Stmt<TextRange>) -> PyStmt {
    match s {
        Stmt::Import(i) => PyStmt::Import { names: py_aliases(&i.names) },
        Stmt::ImportFrom(i) => PyStmt::ImportFrom { module: i.module.as_ref().map(|m| m.to_string()), names: py_aliases(&i.names) },
        Stmt::FunctionDef(f) => PyStmt::FunctionDef(py_def(f.name.to_string(), &f.args, &f.returns, &f.body)),
        Stmt::AsyncFunctionDef(f) => PyStmt::AsyncFunctionDef(py_def(f.name.to_string(), &f.args, &f.returns, &f.body)),
        Stmt::ClassDef(c) => PyStmt::ClassDef { name: c.name.to_string(), body: py_stmts(&c.body), body_debug: debug_text(&c.body) },
        other => py_stmt_flow(other),
    }
}

/// A parsed statement carried over: expressions and control flow.
#[verifier::external_body]
fn py_stmt_flow(s: &Stmt<TextRange>) -> PyStmt {
    match s {
        Stmt::Expr(e) => PyStmt::Expr { value: py_expr(&e.value) },
        Stmt::If(i) => PyStmt::If { test: py_expr(&i.test), body: py_stmts(&i.body), orelse: py_stmts(&i.orelse) },
        Stmt::For(f) => PyStmt::For { iter: py_expr(&f.iter), body: py_stmts(&f.body), orelse: py_stmts(&f.orelse) },
        Stmt::While(w) => PyStmt::While { test: py_expr(&w.test), body: py_stmts(&w.body), orelse: py_stmts(&w.orelse) },
        other => py_stmt_block(other),
    }
}

/// A parsed statement carried over: `with`, `return`, assignments, `try` and the rest.
#[verifier::external_body]
fn py_stmt_block(s: &Stmt<TextRange>) -> PyStmt {
    match s {
        Stmt::With(w) => PyStmt::With { items: w.items.iter().map(|i| py_expr(&i.context_expr)).collect(), body: py_stmts(&w.body) },
        Stmt::Return(r) => PyStmt::Return { value: r.value.as_ref().map(|v| py_expr(v)) },
        Stmt::Assign(a) => PyStmt::Assign { value: py_expr(&a.value) },
        Stmt::Try(t) => PyStmt::Try {
            body: py_stmts(&t.body),
            handlers: t.handlers.iter().map(|ExceptHandler::ExceptHandler(h)| py_stmts(&h.body)).collect(),
            orelse: py_stmts(&t.orelse),
            finalbody: py_stmts(&t.finalbody),
        },
        _ => PyStmt::Other,
    }
}

} // verus!
