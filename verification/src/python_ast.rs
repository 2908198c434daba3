//! The part of a Python syntax tree that the analyzer reads.
//!
//! Source offsets are byte offsets into the file, as the parser reports them.
//! `debug` texts are the parser's own `Debug` rendering of the node, which
//! integration detection and constant display read.

use vstd::prelude::*;

verus! {

/// A name in an import statement, with its `as` name.
#[derive(Debug)]
pub struct PyAlias {
    pub name: String,
    pub asname: Option<String>,
    pub offset: usize,
}

/// A positional parameter with its annotation and default value.
#[derive(Debug)]
pub struct PyParam {
    pub name: String,
    pub annotation: Option<Box<PyExpr>>,
    pub default: Option<Box<PyExpr>>,
}

/// A `*args` or `**kwargs` parameter with its annotation.
#[derive(Debug)]
pub struct PyStarParam {
    pub name: String,
    pub annotation: Option<Box<PyExpr>>,
}

/// The parameter list of a function.
#[derive(Debug)]
pub struct PyArguments {
    pub args: Vec<PyParam>,
    pub vararg: Option<PyStarParam>,
    pub kwarg: Option<PyStarParam>,
}

/// A `for ... in iter if ...` clause of a comprehension.
#[derive(Debug)]
pub struct PyComprehension {
    pub iter: PyExpr,
    pub ifs: Vec<PyExpr>,
}

/// A Python expression.
#[derive(Debug)]
#[allow(inconsistent_fields)]
pub enum PyExpr {
    Call { func: Box<PyExpr>, args: Vec<PyExpr>, keywords: Vec<PyExpr>, offset: usize },
    Attribute { value: Box<PyExpr>, attr: String },
    BoolOp { values: Vec<PyExpr> },
    BinOp { left: Box<PyExpr>, right: Box<PyExpr> },
    UnaryOp { operand: Box<PyExpr> },
    IfExp { test: Box<PyExpr>, body: Box<PyExpr>, orelse: Box<PyExpr> },
    Dict { keys: Vec<Option<PyExpr>>, values: Vec<PyExpr> },
    List { elts: Vec<PyExpr> },
    Tuple { elts: Vec<PyExpr> },
    ListComp { elt: Box<PyExpr>, generators: Vec<PyComprehension> },
    Compare { left: Box<PyExpr>, comparators: Vec<PyExpr> },
    JoinedStr { values: Vec<PyExpr> },
    FormattedValue { value: Box<PyExpr> },
    Subscript { value: Box<PyExpr>, slice: Box<PyExpr> },
    Starred { value: Box<PyExpr> },
    Await { value: Box<PyExpr> },
    Name { id: String },
    /// A constant: `text` is its value when it is a string, `debug` its rendering otherwise.
    Constant { text: Option<String>, debug: String },
    Other,
}

/// A function definition (`def` or `async def`).
#[derive(Debug)]
pub struct PyFunctionDef {
    pub name: String,
    pub args: PyArguments,
    /// The return annotation (`-> T`), when there is one.
    pub return_annotation: Option<Box<PyExpr>>,
    pub body: Vec<PyStmt>,
    pub body_debug: String,
}

/// A Python statement.
#[derive(Debug)]
#[allow(inconsistent_fields)]
pub enum PyStmt {
    Import { names: Vec<PyAlias> },
    ImportFrom { module: Option<String>, names: Vec<PyAlias> },
    FunctionDef(PyFunctionDef),
    AsyncFunctionDef(PyFunctionDef),
    ClassDef { name: String, body: Vec<PyStmt>, body_debug: String },
    Expr { value: PyExpr },
    If { test: PyExpr, body: Vec<PyStmt>, orelse: Vec<PyStmt> },
    For { iter: PyExpr, body: Vec<PyStmt>, orelse: Vec<PyStmt> },
    While { test: PyExpr, body: Vec<PyStmt>, orelse: Vec<PyStmt> },
    With { items: Vec<PyExpr>, body: Vec<PyStmt> },
    Return { value: Option<PyExpr> },
    Assign { value: PyExpr },
    Try { body: Vec<PyStmt>, handlers: Vec<Vec<PyStmt>>, orelse: Vec<PyStmt>, finalbody: Vec<PyStmt> },
    Other,
}

} // verus!
