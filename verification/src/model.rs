//! The project model: modules, files, symbols and the edges between them.

use vstd::prelude::*;
use crate::strmap::StrMap;

verus! {

/// Everything known about an analysed project, keyed by id.
pub struct ProjectModel {
    pub modules: StrMap<Module>,
    pub files: StrMap<FileDoc>,
    pub symbols: StrMap<Symbol>,
    pub edges: Edges,
}

/// A Python module.
#[derive(Clone, Debug)]
pub struct Module {
    pub id: String,
    pub path: String,
    pub files: Vec<String>,
    pub doc_summary: Option<String>,
    pub outbound_modules: Vec<String>,
    pub inbound_modules: Vec<String>,
    pub symbols: Vec<String>,
}

/// A source file.
#[derive(Clone, Debug)]
pub struct FileDoc {
    pub id: String,
    pub path: String,
    pub module_id: String,
    pub imports: Vec<String>,
    pub outbound_modules: Vec<String>,
    pub inbound_files: Vec<String>,
    pub symbols: Vec<String>,
}

/// A function, method or class definition.
#[derive(Clone, Debug)]
pub struct Symbol {
    pub id: String,
    pub kind: SymbolKind,
    pub module_id: String,
    pub file_id: String,
    pub qualname: String,
    pub signature: String,
    pub annotations: Option<StrMap<String>>,
    pub docstring_first_line: Option<String>,
    pub purpose: String,
    pub outbound_calls: Vec<String>,
    pub inbound_calls: Vec<String>,
    pub integrations_flags: IntegrationFlags,
    pub metrics: SymbolMetrics,
}

/// The kind of a symbol.
#[derive(Clone, Copy, Debug, PartialEq, Eq, Structural)]
pub enum SymbolKind {
    Function,
    AsyncFunction,
    Class,
    Method,
}

/// Which kinds of outside system a symbol talks to.
#[derive(Clone, Copy, Debug)]
pub struct IntegrationFlags {
    pub http: bool,
    pub db: bool,
    pub queue: bool,
}

/// Call-graph measures of a symbol.
#[derive(Clone, Copy, Debug)]
pub struct SymbolMetrics {
    pub fan_in: usize,
    pub fan_out: usize,
    pub is_critical: bool,
    pub cycle_participant: bool,
}

/// The edges of the project graphs.
#[derive(Clone, Debug)]
pub struct Edges {
    pub module_import_edges: Vec<Edge>,
    pub file_import_edges: Vec<Edge>,
    pub symbol_call_edges: Vec<Edge>,
}

/// A directed edge between two ids.
#[derive(Clone, Debug)]
pub struct Edge {
    pub from_id: String,
    pub to_id: String,
    pub edge_type: EdgeType,
    pub meta: Option<StrMap<String>>,
}

/// The kind of an edge.
#[derive(Clone, Copy, Debug, PartialEq, Eq, Structural)]
pub enum EdgeType {
    ModuleImport,
    FileImport,
    SymbolCall,
    ExternalCall,
    UnresolvedCall,
}

/// What one Python file yields before project-wide resolution.
#[derive(Clone, Debug)]
pub struct ParsedModule {
    pub path: String,
    pub module_id: String,
    pub imports: Vec<Import>,
    pub symbols: Vec<Symbol>,
    pub calls: Vec<Call>,
}

/// An imported name (`import a.b as c`, or `from a import b`, recorded as `a.b`).
#[derive(Clone, Debug)]
pub struct Import {
    pub module_name: String,
    pub alias: Option<String>,
    pub line_number: usize,
}

/// A call site.
#[derive(Clone, Debug)]
pub struct Call {
    pub caller_symbol: String,
    pub callee_expr: String,
    pub line_number: usize,
    pub call_type: CallType,
}

/// How a call was resolved.
#[derive(Clone, Copy, Debug, PartialEq, Eq, Structural)]
pub enum CallType {
    Local,
    Imported,
    External,
    Unresolved,
}

// ---------------------------------------------------------------- views
/// The value of an `Import`.
pub struct ImportView {
    pub module_name: Seq<char>,
    pub alias: Option<Seq<char>>,
    pub line_number: usize,
}

impl DeepView for Import {
    type V = ImportView;

    open spec fn deep_view(&self) -> ImportView {
        ImportView {
            module_name: self.module_name@,
            alias: self.alias.deep_view(),
            line_number: self.line_number,
        }
    }
}

/// The value of a `Call`.
pub struct CallView {
    pub caller_symbol: Seq<char>,
    pub callee_expr: Seq<char>,
    pub line_number: usize,
    pub call_type: CallType,
}

impl DeepView for Call {
    type V = CallView;

    open spec fn deep_view(&self) -> CallView {
        CallView {
            caller_symbol: self.caller_symbol@,
            callee_expr: self.callee_expr@,
            line_number: self.line_number,
            call_type: self.call_type,
        }
    }
}

/// The value of a `Symbol`.
pub struct SymbolView {
    pub id: Seq<char>,
    pub kind: SymbolKind,
    pub module_id: Seq<char>,
    pub file_id: Seq<char>,
    pub qualname: Seq<char>,
    pub signature: Seq<char>,
    pub annotations: Option<Seq<(Seq<char>, Seq<char>)>>,
    pub docstring_first_line: Option<Seq<char>>,
    pub purpose: Seq<char>,
    pub outbound_calls: Seq<Seq<char>>,
    pub inbound_calls: Seq<Seq<char>>,
    pub integrations_flags: IntegrationFlags,
    pub metrics: SymbolMetrics,
}

impl DeepView for Symbol {
    type V = SymbolView;

    open spec fn deep_view(&self) -> SymbolView {
        SymbolView {
            id: self.id@,
            kind: self.kind,
            module_id: self.module_id@,
            file_id: self.file_id@,
            qualname: self.qualname@,
            signature: self.signature@,
            annotations: self.annotations.deep_view(),
            docstring_first_line: self.docstring_first_line.deep_view(),
            purpose: self.purpose@,
            outbound_calls: self.outbound_calls.deep_view(),
            inbound_calls: self.inbound_calls.deep_view(),
            integrations_flags: self.integrations_flags,
            metrics: self.metrics,
        }
    }
}

/// The value of an `Edge`.
pub struct EdgeView {
    pub from_id: Seq<char>,
    pub to_id: Seq<char>,
    pub edge_type: EdgeType,
    pub meta: Option<Seq<(Seq<char>, Seq<char>)>>,
}

impl DeepView for Edge {
    type V = EdgeView;

    open spec fn deep_view(&self) -> EdgeView {
        EdgeView {
            from_id: self.from_id@,
            to_id: self.to_id@,
            edge_type: self.edge_type,
            meta: self.meta.deep_view(),
        }
    }
}

/// The value of a `Module`.
pub struct ModuleView {
    pub id: Seq<char>,
    pub path: Seq<char>,
    pub files: Seq<Seq<char>>,
    pub doc_summary: Option<Seq<char>>,
    pub outbound_modules: Seq<Seq<char>>,
    pub inbound_modules: Seq<Seq<char>>,
    pub symbols: Seq<Seq<char>>,
}

impl DeepView for Module {
    type V = ModuleView;

    open spec fn deep_view(&self) -> ModuleView {
        ModuleView {
            id: self.id@,
            path: self.path@,
            files: self.files.deep_view(),
            doc_summary: self.doc_summary.deep_view(),
            outbound_modules: self.outbound_modules.deep_view(),
            inbound_modules: self.inbound_modules.deep_view(),
            symbols: self.symbols.deep_view(),
        }
    }
}

/// The value of a `FileDoc`.
pub struct FileDocView {
    pub id: Seq<char>,
    pub path: Seq<char>,
    pub module_id: Seq<char>,
    pub imports: Seq<Seq<char>>,
    pub outbound_modules: Seq<Seq<char>>,
    pub inbound_files: Seq<Seq<char>>,
    pub symbols: Seq<Seq<char>>,
}

impl DeepView for FileDoc {
    type V = FileDocView;

    open spec fn deep_view(&self) -> FileDocView {
        FileDocView {
            id: self.id@,
            path: self.path@,
            module_id: self.module_id@,
            imports: self.imports.deep_view(),
            outbound_modules: self.outbound_modules.deep_view(),
            inbound_files: self.inbound_files.deep_view(),
            symbols: self.symbols.deep_view(),
        }
    }
}

// ---------------------------------------------------------------- constructors
impl ProjectModel {
    /// An empty model.
    pub fn new() -> (m: Self)
        ensures
            m.modules.keys() == Seq::<Seq<char>>::empty(),
            m.files.keys() == Seq::<Seq<char>>::empty(),
            m.symbols.keys() == Seq::<Seq<char>>::empty(),
            m.modules.vals() == Seq::<Module>::empty(),
            m.files.vals() == Seq::<FileDoc>::empty(),
            m.symbols.vals() == Seq::<Symbol>::empty(),
            m.edges.module_import_edges@ == Seq::<Edge>::empty(),
            m.edges.file_import_edges@ == Seq::<Edge>::empty(),
            m.edges.symbol_call_edges@ == Seq::<Edge>::empty(),
    {
        ProjectModel {
            modules: StrMap::new(),
            files: StrMap::new(),
            symbols: StrMap::new(),
            edges: Edges::new(),
        }
    }
}

impl Default for ProjectModel {
    fn default() -> (m: Self)
        ensures
            m.modules.keys() == Seq::<Seq<char>>::empty(),
            m.files.keys() == Seq::<Seq<char>>::empty(),
            m.symbols.keys() == Seq::<Seq<char>>::empty(),
            m.edges.module_import_edges@ == Seq::<Edge>::empty(),
            m.edges.file_import_edges@ == Seq::<Edge>::empty(),
            m.edges.symbol_call_edges@ == Seq::<Edge>::empty(),
    {
        Self::new()
    }
}

impl Edges {
    /// No edges.
    pub fn new() -> (e: Self)
        ensures
            e.module_import_edges@ == Seq::<Edge>::empty(),
            e.file_import_edges@ == Seq::<Edge>::empty(),
            e.symbol_call_edges@ == Seq::<Edge>::empty(),
    {
        Edges {
            module_import_edges: Vec::new(),
            file_import_edges: Vec::new(),
            symbol_call_edges: Vec::new(),
        }
    }
}

impl Default for Edges {
    fn default() -> (e: Self)
        ensures
            e.module_import_edges@ == Seq::<Edge>::empty(),
            e.file_import_edges@ == Seq::<Edge>::empty(),
            e.symbol_call_edges@ == Seq::<Edge>::empty(),
    {
        Self::new()
    }
}

} // verus!
