//! The documents written for each file and module of the model, and their names.

use vstd::prelude::*;
use crate::model::{FileDoc, ProjectModel, Symbol, SymbolKind};
use crate::text::{chars_of, concat3, decimal_seq, push_decimal, replace_char, replace_char_seq,
    starts_with_exec, starts_with_seq};

verus! {

// ---------------------------------------------------------------- specification
/// `filename` without one leading `./`, every `/` made `__`.
pub open spec fn sanitized(filename: Seq<char>) -> Seq<char> {
    let cleaned = if starts_with_seq(filename, "./"@) {
        filename.skip(2)
    } else {
        filename
    };
    replace_char_seq(cleaned, '/', "__"@)
}

/// The name of a symbol kind as `{:?}` writes it.
pub open spec fn kind_name(k: SymbolKind) -> Seq<char> {
    match k {
        SymbolKind::Function => "Function"@,
        SymbolKind::AsyncFunction => "AsyncFunction"@,
        SymbolKind::Class => "Class"@,
        SymbolKind::Method => "Method"@,
    }
}

/// The pieces of `list`, one after another.
pub open spec fn concat_all(list: Seq<Seq<char>>) -> Seq<char>
    decreases list.len(),
{
    if list.len() == 0 {
        Seq::empty()
    } else {
        concat_all(list.drop_last()) + list.last()
    }
}

/// The line listing an import.
pub open spec fn import_line(name: Seq<char>) -> Seq<char> {
    "- "@ + name + "\n"@
}

/// The line of the symbols index for `id`: nothing when the model has no such symbol.
pub open spec fn index_line(model: ProjectModel, id: Seq<char>) -> Seq<char> {
    match model.symbols.lookup(id) {
        Some(s) => "- `"@ + s.qualname@ + "` ("@ + kind_name(s.kind) + ")\n"@,
        None => Seq::empty(),
    }
}

/// The empty marked block of symbol `id`: nothing when the model has no such symbol.
pub open spec fn detail_block(model: ProjectModel, id: Seq<char>) -> Seq<char> {
    if model.symbols.keys().contains(id) {
        "\n<!-- ARCHDOC:BEGIN symbol id="@ + id + " -->\n"@
            + "<!-- AUTOGENERATED SYMBOL CONTENT WILL BE INSERTED HERE -->\n"@
            + "<!-- ARCHDOC:END symbol id="@ + id + " -->\n"@
    } else {
        Seq::empty()
    }
}

/// The document of one file: a header, the manual block, the list of imports, the
/// symbols index and an empty marked block for each symbol.
pub open spec fn file_doc_text(model: ProjectModel, f: FileDoc) -> Seq<char> {
    let ids = f.symbols.deep_view();
    "# File: "@ + f.path@ + "\n\n"@
        + "- **Module:** "@ + f.module_id@ + "\n"@
        + "- **Defined symbols:** "@ + decimal_seq(f.symbols@.len()) + "\n"@
        + "- **Imports:** "@ + decimal_seq(f.imports@.len()) + "\n\n"@
        + "<!-- MANUAL:BEGIN -->\n## File intent (manual)\n<FILL_MANUALLY>\n<!-- MANUAL:END -->\n\n---\n\n"@
        + "## Imports & file-level dependencies\n<!-- ARCHDOC:BEGIN section=file_imports -->\n> Generated. Do not edit inside this block.\n"@
        + concat_all(f.imports.deep_view().map_values(|i: Seq<char>| import_line(i)))
        + "<!-- ARCHDOC:END section=file_imports -->\n\n---\n\n"@
        + "## Symbols index\n<!-- ARCHDOC:BEGIN section=symbols_index -->\n> Generated. Do not edit inside this block.\n"@
        + concat_all(ids.map_values(|id: Seq<char>| index_line(model, id)))
        + "<!-- ARCHDOC:END section=symbols_index -->\n\n---\n\n"@
        + "## Symbol details\n"@
        + concat_all(ids.map_values(|id: Seq<char>| detail_block(model, id)))
}

// ---------------------------------------------------------------- execution
/// A file path made into a document name: one leading `./` dropped and every `/`
/// replaced by `__`.
pub fn sanitize_filename(filename: &str) -> (r: String)
    ensures
        r@ == sanitized(filename@),
{
    let cs = chars_of(filename);
    let dot_slash = chars_of("./");
    proof {
        reveal_strlit("./");
    }
    if starts_with_exec(&cs, &dot_slash) {
        let n = cs.len();
        let mut rest: Vec<char> = Vec::new();
        let mut i: usize = 2;
        while i < n
            invariant
                2 <= i <= n,
                n == cs@.len(),
                rest@ == cs@.subrange(2, i as int),
            decreases n - i,
        {
            rest.push(cs[i]);
            assert(cs@.subrange(2, i + 1) =~= cs@.subrange(2, i as int).push(cs@[i as int]));
            i = i + 1;
        }
        assert(rest@ =~= filename@.skip(2));
        replace_char(&rest, '/', "__")
    } else {
        replace_char(&cs, '/', "__")
    }
}

/// The name of the document of a module: its sanitized id and `.md`.
pub fn module_doc_name(module_id: &str) -> (r: String)
    ensures
        r@ == sanitized(module_id@) + ".md"@,
{
    let mut r = sanitize_filename(module_id);
    r.append(".md");
    r
}

/// The document of a module that could not be rendered.
pub fn fallback_module_doc(module_id: &str) -> (r: String)
    ensures
        r@ == "# Module: "@ + module_id@ + "\n\nTODO: Add module documentation\n"@,
{
    concat3("# Module: ", module_id, "\n\nTODO: Add module documentation\n")
}

/// The `{:?}` name of a symbol kind.
pub fn kind_label(k: SymbolKind) -> (r: &'static str)
    ensures
        r@ == kind_name(k),
{
    match k {
        SymbolKind::Function => "Function",
        SymbolKind::AsyncFunction => "AsyncFunction",
        SymbolKind::Class => "Class",
        SymbolKind::Method => "Method",
    }
}

/// Appends `piece` to `out`, which holds the concatenation of `done`.
proof fn lemma_concat_push(done: Seq<Seq<char>>, piece: Seq<char>)
    ensures
        concat_all(done.push(piece)) == concat_all(done) + piece,
{
    assert(done.push(piece).drop_last() =~= done);
}

/// The document written for file `f` of `model`.
pub fn file_doc_markdown(model: &ProjectModel, f: &FileDoc) -> (r: String)
    ensures
        r@ == file_doc_text(*model, *f),
{
    let mut out = concat3("# File: ", f.path.as_str(), "\n\n");
    out.append("- **Module:** ");
    out.append(f.module_id.as_str());
    out.append("\n");
    out.append("- **Defined symbols:** ");
    push_decimal(&mut out, f.symbols.len() as u64);
    out.append("\n");
    out.append("- **Imports:** ");
    push_decimal(&mut out, f.imports.len() as u64);
    out.append("\n\n");
    out.append("<!-- MANUAL:BEGIN -->\n## File intent (manual)\n<FILL_MANUALLY>\n<!-- MANUAL:END -->\n\n---\n\n");
    out.append(
        "## Imports & file-level dependencies\n<!-- ARCHDOC:BEGIN section=file_imports -->\n> Generated. Do not edit inside this block.\n",
    );
    let ghost head = out@;

    // imports
    let ghost imports = f.imports.deep_view().map_values(|i: Seq<char>| import_line(i));
    let n = f.imports.len();
    let mut i: usize = 0;
    assert(imports.take(0) =~= Seq::<Seq<char>>::empty());
    while i < n
        invariant
            n == f.imports@.len(),
            imports == f.imports.deep_view().map_values(|i: Seq<char>| import_line(i)),
            i <= n,
            out@ == head + concat_all(imports.take(i as int)),
        decreases n - i,
    {
        out.append("- ");
        out.append(f.imports[i].as_str());
        out.append("\n");
        proof {
            lemma_concat_push(imports.take(i as int), imports[i as int]);
            assert(imports.take(i + 1) =~= imports.take(i as int).push(imports[i as int]));
        }
        i = i + 1;
    }
    assert(imports.take(n as int) =~= imports);
    out.append("<!-- ARCHDOC:END section=file_imports -->\n\n---\n\n");
    out.append(
        "## Symbols index\n<!-- ARCHDOC:BEGIN section=symbols_index -->\n> Generated. Do not edit inside this block.\n",
    );
    let ghost head2 = out@;

    // symbols index
    let ghost ids = f.symbols.deep_view();
    let ghost index = ids.map_values(|id: Seq<char>| index_line(*model, id));
    let k = f.symbols.len();
    let mut j: usize = 0;
    assert(index.take(0) =~= Seq::<Seq<char>>::empty());
    while j < k
        invariant
            k == f.symbols@.len(),
            ids == f.symbols.deep_view(),
            index == ids.map_values(|id: Seq<char>| index_line(*model, id)),
            j <= k,
            out@ == head2 + concat_all(index.take(j as int)),
        decreases k - j,
    {
        let ghost before = out@;
        match model.symbols.get(f.symbols[j].as_str()) {
            Some(s) => {
                let s: &Symbol = s;
                out.append("- `");
                out.append(s.qualname.as_str());
                out.append("` (");
                out.append(kind_label(s.kind));
                out.append(")\n");
            },
            None => {},
        }
        proof {
            assert(out@ =~= before + index[j as int]);
            lemma_concat_push(index.take(j as int), index[j as int]);
            assert(index.take(j + 1) =~= index.take(j as int).push(index[j as int]));
        }
        j = j + 1;
    }
    assert(index.take(k as int) =~= index);
    out.append("<!-- ARCHDOC:END section=symbols_index -->\n\n---\n\n");
    out.append("## Symbol details\n");
    let ghost head3 = out@;

    // symbol details
    let ghost details = ids.map_values(|id: Seq<char>| detail_block(*model, id));
    let mut j: usize = 0;
    assert(details.take(0) =~= Seq::<Seq<char>>::empty());
    while j < k
        invariant
            k == f.symbols@.len(),
            ids == f.symbols.deep_view(),
            details == ids.map_values(|id: Seq<char>| detail_block(*model, id)),
            j <= k,
            out@ == head3 + concat_all(details.take(j as int)),
        decreases k - j,
    {
        let ghost before = out@;
        if model.symbols.contains_key(f.symbols[j].as_str()) {
            out.append("\n<!-- ARCHDOC:BEGIN symbol id=");
            out.append(f.symbols[j].as_str());
            out.append(" -->\n");
            out.append("<!-- AUTOGENERATED SYMBOL CONTENT WILL BE INSERTED HERE -->\n");
            out.append("<!-- ARCHDOC:END symbol id=");
            out.append(f.symbols[j].as_str());
            out.append(" -->\n");
        }
        proof {
            assert(out@ =~= before + details[j as int]);
            lemma_concat_push(details.take(j as int), details[j as int]);
            assert(details.take(j + 1) =~= details.take(j as int).push(details[j as int]));
        }
        j = j + 1;
    }
    assert(details.take(k as int) =~= details);
    out
}

} // verus!
