//! Writing generated documentation into files while keeping what was written by hand:
//! only the text between the markers of a generated section is replaced.
//!
//! Marker positions are byte offsets into the UTF-8 text of the content; internally
//! the text is handled as characters, and `utf8_offset` relates the two.

use vstd::prelude::*;
use vstd::utf8::{char_is_scalar, encode_scalar, encode_utf8};
use crate::errors::ArchDocError;
use crate::text::{chars_of, concat2, concat3, find_from, find_from_exec, lemma_find_from_result, matches_at,
    matches_at_exec, starts_with_seq, string_of_range, trim_start_seq, trim_bounds, join_seq, str_eq,
    is_ws, contains_seq};

verus! {

/// Where a generated section stands: from the first byte of its begin marker to just
/// after its end marker, as byte offsets into the content.
#[derive(Debug)]
pub struct SectionMarker {
    pub name: String,
    pub start_pos: usize,
    pub end_pos: usize,
}

/// Where the generated block of one symbol stands, as byte offsets into the content.
#[derive(Debug)]
pub struct SymbolMarker {
    pub symbol_id: String,
    pub start_pos: usize,
    pub end_pos: usize,
}

/// Updates generated sections of documentation files.
pub struct DiffAwareWriter {}

/// The number of bytes that `c` takes in UTF-8.
pub open spec fn utf8_len(c: char) -> nat {
    let u = c as u32;
    if u < 0x80 {
        1
    } else if u < 0x800 {
        2
    } else if u < 0x10000 {
        3
    } else {
        4
    }
}

/// The byte offset, in the UTF-8 encoding of `s`, at which its character `i` starts:
/// the encoded length of the characters before it.
pub open spec fn utf8_offset(s: Seq<char>, i: int) -> nat
    decreases i,
{
    if i <= 0 {
        0
    } else {
        utf8_offset(s, i - 1) + utf8_len(s[i - 1])
    }
}

/// The number of bytes that `c` takes in UTF-8.
fn utf8_width(c: char) -> (r: usize)
    ensures
        r == utf8_len(c),
        1 <= r <= 4,
{
    let u = c as u32;
    if u < 0x80 {
        1
    } else if u < 0x800 {
        2
    } else if u < 0x10000 {
        3
    } else {
        4
    }
}

/// The byte offset `b` is where a character of `s` starts, or the end of `s`.
pub open spec fn is_char_boundary_at(s: Seq<char>, b: int) -> bool {
    exists|i: int| 0 <= i <= s.len() && utf8_offset(s, i) == b
}

/// The character position at the byte offset `b` of `s`.
pub open spec fn char_at_byte(s: Seq<char>, b: int) -> int {
    choose|i: int| 0 <= i <= s.len() && utf8_offset(s, i) == b
}

/// Later characters start at later bytes.
proof fn lemma_utf8_offset_strict(s: Seq<char>, i: int, j: int)
    requires
        0 <= i < j,
    ensures
        utf8_offset(s, i) < utf8_offset(s, j),
    decreases j - i,
{
    if i + 1 < j {
        lemma_utf8_offset_strict(s, i, j - 1);
    }
}

/// The UTF-8 offset of each character of `s` is the length of the UTF-8 encoding of
/// the characters before it (`vstd`'s `encode_utf8`, what `str::as_bytes` gives).
pub proof fn lemma_utf8_offset_is_encoded_length(s: Seq<char>, i: int)
    requires
        0 <= i <= s.len(),
    ensures
        utf8_offset(s, i) == encode_utf8(s.take(i)).len(),
    decreases i,
{
    if i > 0 {
        lemma_utf8_offset_is_encoded_length(s, i - 1);
        lemma_encode_append(s.take(i - 1), seq![s[i - 1]]);
        assert(s.take(i - 1) + seq![s[i - 1]] =~= s.take(i));
        let c = s[i - 1];
        assert(seq![c].drop_first() =~= Seq::<char>::empty());
        assert(encode_utf8(Seq::<char>::empty()) =~= Seq::<u8>::empty());
        assert(encode_utf8(seq![c]) =~= encode_scalar(c as u32));
        let u = c as u32;
        char_is_scalar(c);
        assert(encode_scalar(u).len() == utf8_len(c));
    }
}

/// The encoding of two texts one after the other is the two encodings one after the
/// other.
proof fn lemma_encode_append(a: Seq<char>, b: Seq<char>)
    ensures
        encode_utf8(a + b) == encode_utf8(a) + encode_utf8(b),
    decreases a.len(),
{
    if a.len() == 0 {
        assert(a + b =~= b);
        assert(encode_utf8(a) =~= Seq::<u8>::empty());
        assert(encode_utf8(a) + encode_utf8(b) =~= encode_utf8(b));
    } else {
        lemma_encode_append(a.drop_first(), b);
        assert((a + b).drop_first() =~= a.drop_first() + b);
        assert((a + b)[0] == a[0]);
        assert(encode_utf8(a + b) =~= encode_utf8(a) + encode_utf8(b));
    }
}

/// The byte offset of the character position `pos` of `cs`.
fn byte_at(cs: &Vec<char>, pos: usize) -> (r: usize)
    requires
        pos <= cs@.len(),
        utf8_offset(cs@, cs@.len() as int) <= usize::MAX,
    ensures
        r == utf8_offset(cs@, pos as int),
{
    let mut total: usize = 0;
    let mut i: usize = 0;
    while i < pos
        invariant
            pos <= cs@.len(),
            utf8_offset(cs@, cs@.len() as int) <= usize::MAX,
            i <= pos,
            total == utf8_offset(cs@, i as int),
        decreases pos - i,
    {
        proof {
            if i + 1 < cs@.len() {
                lemma_utf8_offset_strict(cs@, i + 1, cs@.len() as int);
            }
        }
        total = total + utf8_width(cs[i]);
        i = i + 1;
    }
    total
}

/// The character position of `cs` at the byte offset `b`.
fn char_index(cs: &Vec<char>, b: usize) -> (r: usize)
    requires
        is_char_boundary_at(cs@, b as int),
    ensures
        r as int == char_at_byte(cs@, b as int),
        r <= cs@.len(),
        utf8_offset(cs@, r as int) == b,
{
    let ghost k = choose|k: int| 0 <= k <= cs@.len() && utf8_offset(cs@, k) == b;
    let n = cs.len();
    let mut total: usize = 0;
    let mut i: usize = 0;
    while total < b
        invariant
            n == cs@.len(),
            0 <= k <= cs@.len(),
            utf8_offset(cs@, k) == b,
            i <= k,
            total == utf8_offset(cs@, i as int),
            total <= b,
        decreases k - i,
    {
        proof {
            if k <= i {
                assert(i == k);
            }
            if i + 1 < k {
                lemma_utf8_offset_strict(cs@, i + 1, k);
            }
        }
        total = total + utf8_width(cs[i]);
        i = i + 1;
    }
    proof {
        if i < k {
            lemma_utf8_offset_strict(cs@, i as int, k);
        }
        let c = char_at_byte(cs@, b as int);
        if c < i {
            lemma_utf8_offset_strict(cs@, c, i as int);
        } else if i < c {
            lemma_utf8_offset_strict(cs@, i as int, c);
        }
    }
    i
}

/// The byte offset in `content` of the character position `pos`; `None` only when that
/// offset does not fit in `usize`.
pub fn byte_offset(content: &str, pos: usize) -> (r: Option<usize>)
    requires
        pos <= content@.len(),
    ensures
        match r {
            Some(b) => b == utf8_offset(content@, pos as int),
            None => utf8_offset(content@, pos as int) > usize::MAX,
        },
{
    let cs = chars_of(content);
    let mut total: usize = 0;
    let mut i: usize = 0;
    while i < pos
        invariant
            pos <= cs@.len(),
            cs@ == content@,
            i <= pos,
            total == utf8_offset(content@, i as int),
        decreases pos - i,
    {
        let w = utf8_width(cs[i]);
        match total.checked_add(w) {
            Some(t) => {
                total = t;
            },
            None => {
                proof {
                    lemma_utf8_offset_grows(content@, i as int + 1, pos as int);
                }
                return None;
            },
        }
        i = i + 1;
    }
    Some(total)
}

/// Offsets do not shrink further into the text.
proof fn lemma_utf8_offset_grows(s: Seq<char>, i: int, j: int)
    requires
        i <= j,
    ensures
        utf8_offset(s, i) <= utf8_offset(s, j),
    decreases j - i,
{
    if i < j {
        lemma_utf8_offset_grows(s, i, j - 1);
    }
}

// ---------------------------------------------------------------- specification
/// The marker that opens generated section `name`.
pub open spec fn section_begin(name: Seq<char>) -> Seq<char> {
    "<!-- ARCHDOC:BEGIN section="@ + name + " -->"@
}

/// The marker that closes generated section `name`.
pub open spec fn section_end(name: Seq<char>) -> Seq<char> {
    "<!-- ARCHDOC:END section="@ + name + " -->"@
}

/// The marker that opens the generated block of symbol `id`.
pub open spec fn symbol_begin(id: Seq<char>) -> Seq<char> {
    "<!-- ARCHDOC:BEGIN symbol id="@ + id + " -->"@
}

/// The marker that closes the generated block of symbol `id`.
pub open spec fn symbol_end(id: Seq<char>) -> Seq<char> {
    "<!-- ARCHDOC:END symbol id="@ + id + " -->"@
}

/// The marked spans of `content` from `pos` on, as (start, end) pairs: a span starts at
/// the first `begin` at or after `pos` and ends just after the first `end` that follows
/// that `begin`; the search goes on from there and stops at a `begin` with no `end`
/// after it.
pub open spec fn markers_from(content: Seq<char>, begin: Seq<char>, end: Seq<char>, pos: int) -> Seq<(int, int)>
    decreases content.len() + 1 - pos when end.len() > 0
{
    if pos < 0 {
        Seq::empty()
    } else {
        match find_from(content, begin, pos) {
            None => Seq::empty(),
            Some(b) => {
                proof {
                    lemma_find_from_result(content, begin, pos);
                }
                match find_from(content, end, b + begin.len()) {
                    None => Seq::empty(),
                    Some(e) => {
                        proof {
                            lemma_find_from_result(content, end, b + begin.len());
                        }
                        seq![(b, e + end.len())] + markers_from(content, begin, end, e + end.len())
                    },
                }
            },
        }
    }
}

/// The spans of generated section `name` in `content`.
pub open spec fn section_spans(content: Seq<char>, name: Seq<char>) -> Seq<(int, int)> {
    markers_from(content, section_begin(name), section_end(name), 0)
}

/// The spans of the generated block of symbol `id` in `content`.
pub open spec fn symbol_spans(content: Seq<char>, id: Seq<char>) -> Seq<(int, int)> {
    markers_from(content, symbol_begin(id), symbol_end(id), 0)
}

/// `content` with the span `start..end` replaced by `body` between the two markers.
pub open spec fn spliced(
    content: Seq<char>,
    start: int,
    end: int,
    begin_tag: Seq<char>,
    body: Seq<char>,
    end_tag: Seq<char>,
) -> Seq<char> {
    content.take(start) + begin_tag + body + end_tag + content.skip(end)
}

/// The pairs of a list of positions, as integers.
pub open spec fn spans_view(v: Seq<(usize, usize)>) -> Seq<(int, int)> {
    v.map_values(|p: (usize, usize)| (p.0 as int, p.1 as int))
}

// ---------------------------------------------------------------- laws
/// Every span found lies in the content, starts with the begin marker and ends with
/// the end marker, with the end marker after the begin marker; spans come in order and
/// do not overlap.
pub proof fn lemma_markers_sound(content: Seq<char>, begin: Seq<char>, end: Seq<char>, pos: int)
    requires
        end.len() > 0,
        0 <= pos,
    ensures
        forall|k: int|
            0 <= k < markers_from(content, begin, end, pos).len() ==> {
                let (s, e) = #[trigger] markers_from(content, begin, end, pos)[k];
                &&& pos <= s
                &&& s + begin.len() <= e - end.len()
                &&& e <= content.len()
                &&& matches_at(content, begin, s)
                &&& matches_at(content, end, e - end.len())
            },
        forall|k: int|
            0 <= k < markers_from(content, begin, end, pos).len() - 1 ==> (#[trigger] markers_from(
                content,
                begin,
                end,
                pos,
            )[k]).1 <= markers_from(content, begin, end, pos)[k + 1].0,
    decreases content.len() + 1 - pos,
{
    lemma_find_from_result(content, begin, pos);
    match find_from(content, begin, pos) {
        None => {},
        Some(b) => {
            lemma_find_from_result(content, end, b + begin.len());
            match find_from(content, end, b + begin.len()) {
                None => {},
                Some(e) => {
                    let stop = e + end.len();
                    lemma_markers_sound(content, begin, end, stop);
                    let rest = markers_from(content, begin, end, stop);
                    let all = markers_from(content, begin, end, pos);
                    assert(all == seq![(b, stop)] + rest);
                    assert forall|k: int| 0 <= k < all.len() implies {
                        let (s, e2) = #[trigger] all[k];
                        &&& pos <= s
                        &&& s + begin.len() <= e2 - end.len()
                        &&& e2 <= content.len()
                        &&& matches_at(content, begin, s)
                        &&& matches_at(content, end, e2 - end.len())
                    } by {
                        if k > 0 {
                            assert(all[k] == rest[k - 1]);
                        }
                    }
                    assert forall|k: int| 0 <= k < all.len() - 1 implies (#[trigger] all[k]).1 <= all[k + 1].0 by {
                        if k > 0 {
                            assert(all[k] == rest[k - 1]);
                            assert(all[k + 1] == rest[k]);
                        } else {
                            assert(all[1] == rest[0]);
                        }
                    }
                },
            }
        },
    }
}

/// Regenerating a section with the same content changes nothing: after a section's
/// span has been replaced by `body`, the first span found again is the new one, and
/// replacing it by `body` once more gives the same text. This holds when `body` holds
/// no end marker of the section (else the first end marker found lies inside `body`).
pub proof fn lemma_replace_idempotent(content: Seq<char>, name: Seq<char>, body: Seq<char>)
    requires
        section_spans(content, name).len() > 0,
        find_from(body + section_end(name), section_end(name), 0) == Some(body.len() as int),
    ensures
        ({
            let (s, e) = section_spans(content, name)[0];
            let once = spliced(content, s, e, section_begin(name), body, section_end(name));
            &&& section_spans(once, name).len() > 0
            &&& section_spans(once, name)[0] == (s, s + section_begin(name).len() + body.len()
                + section_end(name).len())
            &&& spliced(
                once,
                section_spans(once, name)[0].0,
                section_spans(once, name)[0].1,
                section_begin(name),
                body,
                section_end(name),
            ) == once
        }),
{
    let bt = section_begin(name);
    let et = section_end(name);
    reveal_strlit(" -->");
    assert(et.len() > 0);
    lemma_markers_sound(content, bt, et, 0);
    let (s, e) = section_spans(content, name)[0];
    lemma_find_from_result(content, bt, 0);
    let once = spliced(content, s, e, bt, body, et);
    let after = content.skip(e);
    // the first begin marker of `once` is at `s`
    assert(find_from(content, bt, 0) == Some(s));
    assert forall|k: int| 0 <= k < s implies !matches_at(once, bt, k) by {
        if matches_at(once, bt, k) {
            assert(once.subrange(k, k + bt.len()) =~= content.subrange(k, k + bt.len()));
            assert(matches_at(content, bt, k));
        }
    }
    assert(once.subrange(s, s + bt.len()) =~= bt);
    crate::text::lemma_find_from_some(once, bt, 0, s);
    // the first end marker after it closes `body`
    let tail = body + et;
    let from = s + bt.len();
    lemma_find_from_result(tail, et, 0);
    assert forall|k: int| from <= k < from + body.len() implies !matches_at(once, et, k) by {
        if matches_at(once, et, k) {
            assert(once.subrange(k, k + et.len()) =~= tail.subrange(k - from, k - from + et.len()));
            assert(matches_at(tail, et, k - from));
        }
    }
    assert(once.subrange(from + body.len(), from + body.len() + et.len()) =~= et);
    crate::text::lemma_find_from_some(once, et, from, from + body.len());
    let stop = from + body.len() + et.len();
    assert(section_spans(once, name) == seq![(s, stop)] + markers_from(once, bt, et, stop));
    assert(once.take(s) =~= content.take(s));
    assert(once.skip(stop) =~= after);
}

/// Writing the text a section already holds changes nothing: the document comes back
/// as it was, its `- **Updated:**` date untouched.
pub proof fn lemma_unchanged_section_keeps_document(
    existing: Seq<char>,
    generated: Seq<char>,
    name: Seq<char>,
    today: Seq<char>,
)
    requires
        section_spans(existing, name).len() > 0,
        spliced(
            existing,
            section_spans(existing, name)[0].0,
            section_spans(existing, name)[0].1,
            section_begin(name),
            generated,
            section_end(name),
        ) == existing,
    ensures
        section_update_spec(existing, generated, name, today) == Some(existing),
{
}

// ---------------------------------------------------------------- execution
/// The spans of `begin`/`end` pairs in `content`, as `markers_from` describes them.
fn find_spans(content: &[char], begin: &[char], end: &[char]) -> (r: Vec<(usize, usize)>)
    requires
        end@.len() > 0,
    ensures
        spans_view(r@) == markers_from(content@, begin@, end@, 0),
{
    let mut r: Vec<(usize, usize)> = Vec::new();
    let mut pos: usize = 0;
    let n = content.len();
    loop
        invariant
            n == content@.len(),
            end@.len() > 0,
            pos <= content@.len(),
            spans_view(r@) + markers_from(content@, begin@, end@, pos as int) == markers_from(
                content@,
                begin@,
                end@,
                0,
            ),
        ensures
            spans_view(r@) == markers_from(content@, begin@, end@, 0),
        decreases content@.len() - pos,
    {
        proof {
            lemma_find_from_result(content@, begin@, pos as int);
        }
        match find_from_exec(content, begin, pos) {
            None => {
                assert(spans_view(r@) + Seq::<(int, int)>::empty() =~= spans_view(r@));
                break;
            },
            Some(b) => {
                let from = b + begin.len();
                proof {
                    lemma_find_from_result(content@, end@, from as int);
                }
                match find_from_exec(content, end, from) {
                    None => {
                        assert(spans_view(r@) + Seq::<(int, int)>::empty() =~= spans_view(r@));
                        break;
                    },
                    Some(e) => {
                        let stop = e + end.len();
                        let ghost before = spans_view(r@);
                        r.push((b, stop));
                        assert(spans_view(r@) =~= before.push((b as int, stop as int)));
                        assert(before + markers_from(content@, begin@, end@, pos as int) =~= spans_view(r@)
                            + markers_from(content@, begin@, end@, stop as int));
                        pos = stop;
                    },
                }
            },
        }
    }
    r
}

/// `prefix`, `name` and ` -->`: a marker.
fn marker_text(prefix: &str, name: &str) -> (r: String)
    ensures
        r@ == prefix@ + name@ + " -->"@,
{
    concat3(prefix, name, " -->")
}

/// `content` with `start..end` replaced by `body` between the two markers.
fn splice(content: &str, start: usize, end: usize, begin_tag: &str, body: &str, end_tag: &str) -> (r: String)
    requires
        start <= content@.len(),
        end <= content@.len(),
    ensures
        r@ == spliced(content@, start as int, end as int, begin_tag@, body@, end_tag@),
{
    let cs = chars_of(content);
    let n = cs.len();
    let mut out = string_of_range(&cs, 0, start);
    out.append(begin_tag);
    out.append(body);
    out.append(end_tag);
    let after = string_of_range(&cs, end, n);
    out.append(after.as_str());
    assert(cs@.subrange(0, start as int) =~= content@.take(start as int));
    assert(cs@.subrange(end as int, n as int) =~= content@.skip(end as int));
    out
}

impl DiffAwareWriter {
    /// A writer.
    pub fn new() -> (w: Self) {
        DiffAwareWriter {}
    }

    /// The spans of generated section `section_name` in `content`, in order, as byte
    /// offsets into its UTF-8 text.
    pub fn find_section_markers(&self, content: &str, section_name: &str) -> (r: Result<Vec<SectionMarker>, ArchDocError>)
        requires
            utf8_offset(content@, content@.len() as int) <= usize::MAX,
        ensures
            match r {
                Ok(ms) => {
                    &&& ms@.len() == section_spans(content@, section_name@).len()
                    &&& forall|i: int|
                        0 <= i < ms@.len() ==> {
                            &&& (#[trigger] ms@[i]).name@ == section_name@
                            &&& ms@[i].start_pos == utf8_offset(content@, section_spans(content@, section_name@)[i].0)
                            &&& ms@[i].end_pos == utf8_offset(content@, section_spans(content@, section_name@)[i].1)
                        }
                },
                Err(_) => false,
            },
    {
        let begin = marker_text("<!-- ARCHDOC:BEGIN section=", section_name);
        let end = marker_text("<!-- ARCHDOC:END section=", section_name);
        proof {
            reveal_strlit(" -->");
        }
        let cs = chars_of(content);
        let bs = chars_of(begin.as_str());
        let es = chars_of(end.as_str());
        let spans = find_spans(&cs, &bs, &es);
        proof {
            lemma_markers_sound(cs@, bs@, es@, 0);
            assert forall|k: int| 0 <= k < spans@.len() implies (#[trigger] spans@[k]).0 <= spans@[k].1 <= cs@.len() by {
                assert(spans_view(spans@)[k] == (spans@[k].0 as int, spans@[k].1 as int));
            }
        }
        let mut markers: Vec<SectionMarker> = Vec::new();
        let n = spans.len();
        let mut i: usize = 0;
        while i < n
            invariant
                n == spans@.len(),
                cs@ == content@,
                utf8_offset(cs@, cs@.len() as int) <= usize::MAX,
                spans_view(spans@) == section_spans(content@, section_name@),
                forall|k: int| 0 <= k < n ==> (#[trigger] spans@[k]).0 <= spans@[k].1 <= cs@.len(),
                i <= n,
                markers@.len() == i,
                forall|j: int|
                    0 <= j < i ==> {
                        &&& (#[trigger] markers@[j]).name@ == section_name@
                        &&& markers@[j].start_pos == utf8_offset(cs@, spans@[j].0 as int)
                        &&& markers@[j].end_pos == utf8_offset(cs@, spans@[j].1 as int)
                    },
            decreases n - i,
        {
            let start = byte_at(&cs, spans[i].0);
            let stop = byte_at(&cs, spans[i].1);
            markers.push(SectionMarker { name: String::from_str(section_name), start_pos: start, end_pos: stop });
            i = i + 1;
        }
        assert forall|j: int| 0 <= j < n implies spans@[j].0 == section_spans(content@, section_name@)[j].0
            && spans@[j].1 == section_spans(content@, section_name@)[j].1 by {
            assert(spans_view(spans@)[j] == (spans@[j].0 as int, spans@[j].1 as int));
        }
        Ok(markers)
    }

    /// The spans of the generated block of symbol `symbol_id` in `content`, in order, as
    /// byte offsets into its UTF-8 text.
    pub fn find_symbol_markers(&self, content: &str, symbol_id: &str) -> (r: Result<Vec<SymbolMarker>, ArchDocError>)
        requires
            utf8_offset(content@, content@.len() as int) <= usize::MAX,
        ensures
            match r {
                Ok(ms) => {
                    &&& ms@.len() == symbol_spans(content@, symbol_id@).len()
                    &&& forall|i: int|
                        0 <= i < ms@.len() ==> {
                            &&& (#[trigger] ms@[i]).symbol_id@ == symbol_id@
                            &&& ms@[i].start_pos == utf8_offset(content@, symbol_spans(content@, symbol_id@)[i].0)
                            &&& ms@[i].end_pos == utf8_offset(content@, symbol_spans(content@, symbol_id@)[i].1)
                        }
                },
                Err(_) => false,
            },
    {
        let begin = marker_text("<!-- ARCHDOC:BEGIN symbol id=", symbol_id);
        let end = marker_text("<!-- ARCHDOC:END symbol id=", symbol_id);
        proof {
            reveal_strlit(" -->");
        }
        let cs = chars_of(content);
        let bs = chars_of(begin.as_str());
        let es = chars_of(end.as_str());
        let spans = find_spans(&cs, &bs, &es);
        proof {
            lemma_markers_sound(cs@, bs@, es@, 0);
            assert forall|k: int| 0 <= k < spans@.len() implies (#[trigger] spans@[k]).0 <= spans@[k].1 <= cs@.len() by {
                assert(spans_view(spans@)[k] == (spans@[k].0 as int, spans@[k].1 as int));
            }
        }
        let mut markers: Vec<SymbolMarker> = Vec::new();
        let n = spans.len();
        let mut i: usize = 0;
        while i < n
            invariant
                n == spans@.len(),
                cs@ == content@,
                utf8_offset(cs@, cs@.len() as int) <= usize::MAX,
                spans_view(spans@) == symbol_spans(content@, symbol_id@),
                forall|k: int| 0 <= k < n ==> (#[trigger] spans@[k]).0 <= spans@[k].1 <= cs@.len(),
                i <= n,
                markers@.len() == i,
                forall|j: int|
                    0 <= j < i ==> {
                        &&& (#[trigger] markers@[j]).symbol_id@ == symbol_id@
                        &&& markers@[j].start_pos == utf8_offset(cs@, spans@[j].0 as int)
                        &&& markers@[j].end_pos == utf8_offset(cs@, spans@[j].1 as int)
                    },
            decreases n - i,
        {
            let start = byte_at(&cs, spans[i].0);
            let stop = byte_at(&cs, spans[i].1);
            markers.push(SymbolMarker { symbol_id: String::from_str(symbol_id), start_pos: start, end_pos: stop });
            i = i + 1;
        }
        assert forall|j: int| 0 <= j < n implies spans@[j].0 == symbol_spans(content@, symbol_id@)[j].0
            && spans@[j].1 == symbol_spans(content@, symbol_id@)[j].1 by {
            assert(spans_view(spans@)[j] == (spans@[j].0 as int, spans@[j].1 as int));
        }
        Ok(markers)
    }

    /// `content` with the marked span (byte offsets, each at the start of a character
    /// or at the end of the text) replaced by the section's markers around
    /// `new_content`; the text before and after the span is kept as it is.
    pub fn replace_section_content(&self, content: &str, marker: &SectionMarker, new_content: &str) -> (r: Result<String, ArchDocError>)
        requires
            is_char_boundary_at(content@, marker.start_pos as int),
            is_char_boundary_at(content@, marker.end_pos as int),
        ensures
            match r {
                Ok(s) => s@ == spliced(
                    content@,
                    char_at_byte(content@, marker.start_pos as int),
                    char_at_byte(content@, marker.end_pos as int),
                    section_begin(marker.name@),
                    new_content@,
                    section_end(marker.name@),
                ),
                Err(_) => false,
            },
    {
        let cs = chars_of(content);
        let s0 = char_index(&cs, marker.start_pos);
        let e0 = char_index(&cs, marker.end_pos);
        let begin = marker_text("<!-- ARCHDOC:BEGIN section=", marker.name.as_str());
        let end = marker_text("<!-- ARCHDOC:END section=", marker.name.as_str());
        Ok(splice(content, s0, e0, begin.as_str(), new_content, end.as_str()))
    }

    /// `content` with the marked span (byte offsets, each at the start of a character
    /// or at the end of the text) replaced by the symbol's markers around
    /// `new_content`; the text before and after the span is kept as it is.
    pub fn replace_symbol_content(&self, content: &str, marker: &SymbolMarker, new_content: &str) -> (r: Result<String, ArchDocError>)
        requires
            is_char_boundary_at(content@, marker.start_pos as int),
            is_char_boundary_at(content@, marker.end_pos as int),
        ensures
            match r {
                Ok(s) => s@ == spliced(
                    content@,
                    char_at_byte(content@, marker.start_pos as int),
                    char_at_byte(content@, marker.end_pos as int),
                    symbol_begin(marker.symbol_id@),
                    new_content@,
                    symbol_end(marker.symbol_id@),
                ),
                Err(_) => false,
            },
    {
        let cs = chars_of(content);
        let s0 = char_index(&cs, marker.start_pos);
        let e0 = char_index(&cs, marker.end_pos);
        let begin = marker_text("<!-- ARCHDOC:BEGIN symbol id=", marker.symbol_id.as_str());
        let end = marker_text("<!-- ARCHDOC:END symbol id=", marker.symbol_id.as_str());
        Ok(splice(content, s0, e0, begin.as_str(), new_content, end.as_str()))
    }
}

impl Default for DiffAwareWriter {
    fn default() -> (w: Self) {
        Self::new()
    }
}


// ---------------------------------------------------------------- templates
/// The skeleton of a new architecture document.
pub const ARCHITECTURE_TEMPLATE: &'static str = "# ARCHITECTURE — <PROJECT_NAME>

<!-- MANUAL:BEGIN -->
## Project summary
**Name:** <PROJECT_NAME>
**Description:** <FILL_MANUALLY: what this project does in 3–7 lines>

## Key decisions (manual)
- <FILL_MANUALLY>

## Non-goals (manual)
- <FILL_MANUALLY>
<!-- MANUAL:END -->

---

## Document metadata
- **Created:** <AUTO_ON_INIT: YYYY-MM-DD>
- **Updated:** <AUTO_ON_CHANGE: YYYY-MM-DD>
- **Generated by:** archdoc (cli) v0.1

---

## Rails / Tooling
<!-- ARCHDOC:BEGIN section=rails -->
> Generated. Do not edit inside this block.
<AUTO: rails summary + links to config files>
<!-- ARCHDOC:END section=rails -->

---

## Repository layout (top-level)
<!-- ARCHDOC:BEGIN section=layout -->
> Generated. Do not edit inside this block.
<AUTO: table of top-level folders + heuristic purpose + link to layout.md>
<!-- ARCHDOC:END section=layout -->

---

## Modules index
<!-- ARCHDOC:BEGIN section=modules_index -->
> Generated. Do not edit inside this block.
<AUTO: table modules + deps counts + links to module docs>
<!-- ARCHDOC:END section=modules_index -->

---

## Critical dependency points
<!-- ARCHDOC:BEGIN section=critical_points -->
> Generated. Do not edit inside this block.
<AUTO: top fan-in/out symbols + cycles>
<!-- ARCHDOC:END section=critical_points -->

---

<!-- MANUAL:BEGIN -->
## Change notes (manual)
- <FILL_MANUALLY>
<!-- MANUAL:END -->
";

/// The skeleton of a new per-file document.
pub const SYMBOL_TEMPLATE: &'static str = "# File: <relative_path>

- **Module:** <AUTO: module_id>
- **Defined symbols:** <AUTO>
- **Imports:** <AUTO>

<!-- MANUAL:BEGIN -->
## File intent (manual)
<FILL_MANUALLY>
<!-- MANUAL:END -->

---

## Imports & file-level dependencies
<!-- ARCHDOC:BEGIN section=file_imports -->
> Generated. Do not edit inside this block.
<AUTO: imports list + outbound modules + inbound files>
<!-- ARCHDOC:END section=file_imports -->

---

## Symbols index
<!-- ARCHDOC:BEGIN section=symbols_index -->
> Generated. Do not edit inside this block.
<AUTO: list of links to symbol anchors>
<!-- ARCHDOC:END section=symbols_index -->

---

## Symbol details
<!-- AUTOGENERATED SYMBOL CONTENT WILL BE INSERTED HERE -->
";

// ---------------------------------------------------------------- timestamps
/// `l` without one trailing carriage return.
pub open spec fn strip_cr(l: Seq<char>) -> Seq<char> {
    if l.len() > 0 && l.last() == '\r' {
        l.drop_last()
    } else {
        l
    }
}

/// A line that the timestamp update rewrites: after leading whitespace it starts with
/// `- **Updated:**`.
pub open spec fn updated_line(l: Seq<char>) -> bool {
    starts_with_seq(trim_start_seq(l), "- **Updated:**"@)
}

/// A line `l` (without its `\n`) after the timestamp update: when it is the
/// `- **Updated:**` line (a closing `\r` aside), `- **Updated:** ` and `today`, followed
/// by the `\r` it had; any other line as it is.
pub open spec fn stamped_raw(l: Seq<char>, today: Seq<char>) -> Seq<char> {
    if updated_line(strip_cr(l)) {
        "- **Updated:** "@ + today + l.skip(strip_cr(l).len() as int)
    } else {
        l
    }
}

/// `content` with every `- **Updated:**` line set to `today`; every other character,
/// line breaks and a final line break included, is kept.
pub open spec fn timestamp_updated(content: Seq<char>, today: Seq<char>) -> Seq<char>
    decreases content.len(),
{
    match find_from(content, seq!['\n'], 0) {
        Some(i) => {
            proof {
                lemma_find_from_result(content, seq!['\n'], 0);
            }
            stamped_raw(content.take(i), today) + seq!['\n'] + timestamp_updated(content.skip(i + 1), today)
        },
        None => stamped_raw(content, today),
    }
}

/// No line of `x` (a closing `\r` aside) is an `- **Updated:**` line.
pub open spec fn no_stamped_line(x: Seq<char>) -> bool
    decreases x.len(),
{
    match find_from(x, seq!['\n'], 0) {
        Some(i) => {
            proof {
                lemma_find_from_result(x, seq!['\n'], 0);
            }
            !updated_line(strip_cr(x.take(i))) && no_stamped_line(x.skip(i + 1))
        },
        None => !updated_line(strip_cr(x)),
    }
}

/// The timestamp update changes nothing in a text without an `- **Updated:**` line.
pub proof fn lemma_timestamp_keeps_plain_text(x: Seq<char>, today: Seq<char>)
    requires
        no_stamped_line(x),
    ensures
        timestamp_updated(x, today) == x,
    decreases x.len(),
{
    let nl = seq!['\n'];
    lemma_find_from_result(x, nl, 0);
    match find_from(x, nl, 0) {
        Some(i) => {
            lemma_timestamp_keeps_plain_text(x.skip(i + 1), today);
            assert(x[i] == '\n') by {
                assert(x.subrange(i, i + 1)[0] == x[i]);
            }
            assert(x.take(i) + nl + x.skip(i + 1) =~= x);
        },
        None => {},
    }
}

/// Today's date in UTC as `YYYY-MM-DD` (`chrono::Utc::now().format("%Y-%m-%d")`). It
/// depends on the clock, so nothing is stated of it.
#[verifier::external_body]
fn today_utc() -> (r: String) {
    chrono::Utc::now().format("%Y-%m-%d").to_string()
}

/// One line (without its `\n`) after the timestamp update.
fn stamp_raw(cs: &Vec<char>, from: usize, to: usize, today: &str) -> (r: String)
    requires
        from <= to <= cs@.len(),
    ensures
        r@ == stamped_raw(cs@.subrange(from as int, to as int), today@),
{
    let ghost l = cs@.subrange(from as int, to as int);
    let k = if to > from && cs[to - 1] == '\r' {
        to - 1
    } else {
        to
    };
    assert(strip_cr(l) =~= cs@.subrange(from as int, k as int));
    let body = chars_of(string_of_range(cs, from, k).as_str());
    let (a, _) = trim_bounds(&body);
    let p = chars_of("- **Updated:**");
    let hit = matches_at_exec(&body, &p, a);
    proof {
        let t = trim_start_seq(body@);
        if hit {
            assert(t.subrange(0, p@.len() as int) =~= body@.subrange(a as int, a + p@.len()));
        }
        if starts_with_seq(t, p@) {
            assert(t.subrange(0, p@.len() as int) =~= body@.subrange(a as int, a + p@.len()));
        }
    }
    if hit {
        let mut r = concat2("- **Updated:** ", today);
        let tail = string_of_range(cs, k, to);
        assert(l.skip(strip_cr(l).len() as int) =~= cs@.subrange(k as int, to as int));
        r.append(tail.as_str());
        r
    } else {
        string_of_range(cs, from, to)
    }
}

// ---------------------------------------------------------------- updates
/// What writing `generated` into section `name` of `existing` gives: nothing without
/// such a section; otherwise the first span replaced and, when that changed anything,
/// the `- **Updated:**` line set to `today`.
pub open spec fn section_update_spec(
    existing: Seq<char>,
    generated: Seq<char>,
    name: Seq<char>,
    today: Seq<char>,
) -> Option<Seq<char>> {
    let spans = section_spans(existing, name);
    if spans.len() == 0 {
        None
    } else {
        let new = spliced(existing, spans[0].0, spans[0].1, section_begin(name), generated, section_end(name));
        if new != existing {
            Some(timestamp_updated(new, today))
        } else {
            Some(new)
        }
    }
}

/// What writing `generated` into the block of symbol `id` of `existing` gives.
pub open spec fn symbol_update_spec(
    existing: Seq<char>,
    generated: Seq<char>,
    id: Seq<char>,
    today: Seq<char>,
) -> Option<Seq<char>> {
    let spans = symbol_spans(existing, id);
    if spans.len() == 0 {
        None
    } else {
        let new = spliced(existing, spans[0].0, spans[0].1, symbol_begin(id), generated, symbol_end(id));
        if new != existing {
            Some(timestamp_updated(new, today))
        } else {
            Some(new)
        }
    }
}

impl DiffAwareWriter {
    /// `content` with every `- **Updated:**` line set to `today`; everything else, line
    /// breaks included, is kept.
    #[verifier::spinoff_prover]
    pub fn update_timestamp_on(&self, content: String, today: &str) -> (r: Result<String, ArchDocError>)
        ensures
            match r {
                Ok(s) => s@ == timestamp_updated(content@, today@),
                Err(_) => false,
            },
    {
        let cs = chars_of(content.as_str());
        let n = cs.len();
        let mut nl: Vec<char> = Vec::new();
        nl.push('\n');
        let mut out = String::new();
        let mut pos: usize = 0;
        assert(cs@.skip(0) =~= cs@);
        loop
            invariant
                n == cs@.len(),
                cs@ == content@,
                nl@ == seq!['\n'],
                pos <= n,
                out@ + timestamp_updated(cs@.skip(pos as int), today@) == timestamp_updated(cs@, today@),
            decreases n - pos,
        {
            let ghost rest = cs@.skip(pos as int);
            proof {
                lemma_find_from_skip(cs@, nl@, pos as int, 0);
                lemma_find_from_result(cs@, nl@, pos as int);
            }
            match find_from_exec(cs.as_slice(), nl.as_slice(), pos) {
                Some(i) => {
                    let line = stamp_raw(&cs, pos, i, today);
                    proof {
                        let j = i - pos;
                        assert(find_from(rest, seq!['\n'], 0) == Some(j));
                        assert(rest.take(j) =~= cs@.subrange(pos as int, i as int));
                        assert(rest.skip(j + 1) =~= cs@.skip(i + 1));
                    }
                    let ghost before = out@;
                    out.append(line.as_str());
                    out.append("\n");
                    proof {
                        reveal_strlit("\n");
                        assert(out@ =~= before + line@ + seq!['\n']);
                    }
                    pos = i + 1;
                },
                None => {
                    let line = stamp_raw(&cs, pos, n, today);
                    assert(rest =~= cs@.subrange(pos as int, n as int));
                    assert(find_from(rest, seq!['\n'], 0) is None);
                    out.append(line.as_str());
                    return Ok(out);
                },
            }
        }
    }

    /// `content` with every `- **Updated:**` line set to today's date (UTC); everything
    /// else is kept. Which date that is depends on the clock.
    pub fn update_timestamp(&self, content: String) -> (r: Result<String, ArchDocError>)
        ensures
            match r {
                Ok(s) => exists|today: Seq<char>| s@ == timestamp_updated(content@, today),
                Err(_) => false,
            },
    {
        let today = today_utc();
        self.update_timestamp_on(content, today.as_str())
    }

    /// The skeleton for a new document of kind `template_type`: `architecture` and
    /// `symbol` have one; any other kind gets an empty text. The path is not used.
    pub fn create_template_file(&self, _file_path: &str, template_type: &str) -> (r: Result<String, ArchDocError>)
        ensures
            match r {
                Ok(s) => s@ == if template_type@ == "architecture"@ {
                    ARCHITECTURE_TEMPLATE@
                } else if template_type@ == "symbol"@ {
                    SYMBOL_TEMPLATE@
                } else {
                    Seq::<char>::empty()
                },
                Err(_) => false,
            },
    {
        if str_eq(template_type, "architecture") {
            Ok(String::from_str(ARCHITECTURE_TEMPLATE))
        } else if str_eq(template_type, "symbol") {
            Ok(String::from_str(SYMBOL_TEMPLATE))
        } else {
            Ok(String::new())
        }
    }

    /// The new text of a document when `generated` is written into its section
    /// `section_name`, with `today` as the date: `None` when the document has no such
    /// section.
    pub fn section_update_on(&self, existing: &str, generated: &str, section_name: &str, today: &str) -> (r: Result<Option<String>, ArchDocError>)
        ensures
            match r {
                Ok(o) => o.deep_view() == section_update_spec(existing@, generated@, section_name@, today@),
                Err(_) => false,
            },
    {
        let begin = marker_text("<!-- ARCHDOC:BEGIN section=", section_name);
        let end = marker_text("<!-- ARCHDOC:END section=", section_name);
        proof {
            reveal_strlit(" -->");
        }
        let cs = chars_of(existing);
        let bs = chars_of(begin.as_str());
        let es = chars_of(end.as_str());
        let spans = find_spans(&cs, &bs, &es);
        if spans.len() == 0 {
            return Ok(None);
        }
        proof {
            lemma_markers_sound(existing@, section_begin(section_name@), section_end(section_name@), 0);
            assert(spans_view(spans@)[0] == (spans@[0].0 as int, spans@[0].1 as int));
        }
        let new_content = splice(existing, spans[0].0, spans[0].1, begin.as_str(), generated, end.as_str());
        if !str_eq(existing, new_content.as_str()) {
            match self.update_timestamp_on(new_content, today) {
                Ok(s) => Ok(Some(s)),
                Err(e) => Err(e),
            }
        } else {
            Ok(Some(new_content))
        }
    }

    /// The new text of a document when `generated` is written into its section
    /// `section_name`, dated today (UTC): `None` when the document has no such section.
    pub fn section_update(&self, existing: &str, generated: &str, section_name: &str) -> (r: Result<Option<String>, ArchDocError>)
        ensures
            match r {
                Ok(o) => exists|today: Seq<char>|
                    o.deep_view() == section_update_spec(existing@, generated@, section_name@, today),
                Err(_) => false,
            },
    {
        let today = today_utc();
        self.section_update_on(existing, generated, section_name, today.as_str())
    }

    /// The new text of a document when `generated` is written into the block of symbol
    /// `symbol_id`, with `today` as the date: `None` when the document has no such block.
    pub fn symbol_update_on(&self, existing: &str, generated: &str, symbol_id: &str, today: &str) -> (r: Result<Option<String>, ArchDocError>)
        ensures
            match r {
                Ok(o) => o.deep_view() == symbol_update_spec(existing@, generated@, symbol_id@, today@),
                Err(_) => false,
            },
    {
        let begin = marker_text("<!-- ARCHDOC:BEGIN symbol id=", symbol_id);
        let end = marker_text("<!-- ARCHDOC:END symbol id=", symbol_id);
        proof {
            reveal_strlit(" -->");
        }
        let cs = chars_of(existing);
        let bs = chars_of(begin.as_str());
        let es = chars_of(end.as_str());
        let spans = find_spans(&cs, &bs, &es);
        if spans.len() == 0 {
            return Ok(None);
        }
        proof {
            lemma_markers_sound(existing@, symbol_begin(symbol_id@), symbol_end(symbol_id@), 0);
            assert(spans_view(spans@)[0] == (spans@[0].0 as int, spans@[0].1 as int));
        }
        let new_content = splice(existing, spans[0].0, spans[0].1, begin.as_str(), generated, end.as_str());
        if !str_eq(existing, new_content.as_str()) {
            match self.update_timestamp_on(new_content, today) {
                Ok(s) => Ok(Some(s)),
                Err(e) => Err(e),
            }
        } else {
            Ok(Some(new_content))
        }
    }

    /// The new text of a document when `generated` is written into the block of symbol
    /// `symbol_id`, dated today (UTC): `None` when the document has no such block.
    pub fn symbol_update(&self, existing: &str, generated: &str, symbol_id: &str) -> (r: Result<Option<String>, ArchDocError>)
        ensures
            match r {
                Ok(o) => exists|today: Seq<char>|
                    o.deep_view() == symbol_update_spec(existing@, generated@, symbol_id@, today),
                Err(_) => false,
            },
    {
        let today = today_utc();
        self.symbol_update_on(existing, generated, symbol_id, today.as_str())
    }
}


// ---------------------------------------------------------------- repeated updates
/// The line of `h` that starts at `i`: up to the next `\n` or the end.
pub open spec fn segment_at(h: Seq<char>, i: int) -> Seq<char> {
    match find_from(h, seq!['\n'], i) {
        Some(j) => h.subrange(i, j),
        None => h.subrange(i, h.len() as int),
    }
}

/// No line of `h` after its first is an `- **Updated:**` line.
pub open spec fn no_updated_line_after_first(h: Seq<char>) -> bool {
    forall|i: int| 0 <= i < h.len() && h[i] == '\n' ==> !updated_line(#[trigger] segment_at(h, i + 1))
}

/// No line of `h` is an `- **Updated:**` line.
pub open spec fn no_updated_line(h: Seq<char>) -> bool {
    &&& !updated_line(segment_at(h, 0))
    &&& no_updated_line_after_first(h)
}

proof fn lemma_find_from_skip(s: Seq<char>, p: Seq<char>, off: int, q: int)
    requires
        0 <= off <= s.len(),
        0 <= q,
    ensures
        find_from(s, p, off + q) == match find_from(s.skip(off), p, q) {
            Some(i) => Some(i + off),
            None => None::<int>,
        },
    decreases s.len() + 1 - (off + q),
{
    let t = s.skip(off);
    if off + q + p.len() <= s.len() {
        assert(s.subrange(off + q, off + q + p.len()) =~= t.subrange(q, q + p.len()));
        if !matches_at(s, p, off + q) {
            lemma_find_from_skip(s, p, off, q + 1);
        }
    }
}

/// The timestamp update of a text handles its first line, then the rest.
proof fn lemma_stamp_first_line(y: Seq<char>, t: Seq<char>)
    ensures
        match find_from(y, seq!['\n'], 0) {
            Some(i) => timestamp_updated(y, t) == stamped_raw(y.take(i), t) + seq!['\n'] + timestamp_updated(
                y.skip(i + 1),
                t,
            ),
            None => timestamp_updated(y, t) == stamped_raw(y, t),
        },
{
}

proof fn lemma_trim_start_concat(a: Seq<char>, b: Seq<char>)
    ensures
        trim_start_seq(a + b) == if trim_start_seq(a).len() > 0 {
            trim_start_seq(a) + b
        } else {
            trim_start_seq(b)
        },
    decreases a.len(),
{
    if a.len() == 0 {
        assert(a + b =~= b);
    } else if is_ws(a[0]) {
        assert((a + b).drop_first() =~= a.drop_first() + b);
        assert((a + b)[0] == a[0]);
        lemma_trim_start_concat(a.drop_first(), b);
    } else {
        assert((a + b)[0] == a[0]);
    }
}

/// A line is not an `- **Updated:**` line when it starts with a marker after text that
/// is not one.
proof fn lemma_not_updated_before_marker(h: Seq<char>, rest: Seq<char>)
    requires
        !updated_line(h),
        rest.len() > 0,
        rest[0] == '<',
    ensures
        !updated_line(h + rest),
{
    reveal_strlit("- **Updated:**");
    let u = "- **Updated:**"@;
    lemma_trim_start_concat(h, rest);
    let th = trim_start_seq(h);
    assert(!is_ws('<'));
    if th.len() > 0 {
        if starts_with_seq(th + rest, u) {
            if th.len() >= u.len() {
                assert((th + rest).subrange(0, u.len() as int) =~= th.subrange(0, u.len() as int));
            } else {
                assert((th + rest)[th.len() as int] == '<');
                assert((th + rest).subrange(0, u.len() as int)[th.len() as int] == '<');
            }
        }
    } else {
        assert(trim_start_seq(rest) == rest);
        if starts_with_seq(rest, u) {
            assert(rest.subrange(0, u.len() as int)[0] == '<');
        }
    }
}

proof fn lemma_find_from_prefix(h: Seq<char>, z: Seq<char>, p: Seq<char>, q: int)
    requires
        0 <= q,
        find_from(h, p, q) is Some,
    ensures
        find_from(h + z, p, q) == find_from(h, p, q),
    decreases h.len() + 1 - q,
{
    assert(q + p.len() <= h.len());
    assert((h + z).subrange(q, q + p.len()) =~= h.subrange(q, q + p.len()));
    if !matches_at(h, p, q) {
        lemma_find_from_prefix(h, z, p, q + 1);
    }
}

proof fn lemma_no_match_across_newline(x: Seq<char>, y: Seq<char>, p: Seq<char>)
    requires
        !contains_seq(x, p),
        !contains_seq(y, p),
        !p.contains('\n'),
        p.len() > 0,
    ensures
        !contains_seq(x + seq!['\n'] + y, p),
{
    let s = x + seq!['\n'] + y;
    if contains_seq(s, p) {
        let k = choose|k: int| matches_at(s, p, k);
        if k + p.len() <= x.len() {
            assert(s.subrange(k, k + p.len()) =~= x.subrange(k, k + p.len()));
            assert(matches_at(x, p, k));
        } else if k > x.len() {
            let k2 = k - x.len() - 1;
            assert(s.subrange(k, k + p.len()) =~= y.subrange(k2, k2 + p.len()));
            assert(matches_at(y, p, k2));
        } else {
            let at = x.len() - k;
            assert(s.subrange(k, k + p.len())[at] == s[x.len() as int]);
            assert(p[at] == '\n');
        }
    }
}

proof fn lemma_segment_skip(h: Seq<char>, off: int, j: int)
    requires
        0 <= off <= h.len(),
        0 <= j,
        off + j <= h.len(),
    ensures
        segment_at(h.skip(off), j) == segment_at(h, off + j),
{
    lemma_find_from_skip(h, seq!['\n'], off, j);
    let t = h.skip(off);
    match find_from(t, seq!['\n'], j) {
        Some(k) => {
            lemma_find_from_result(t, seq!['\n'], j);
            assert(t.subrange(j, k) =~= h.subrange(off + j, k + off));
        },
        None => {
            assert(t.subrange(j, t.len() as int) =~= h.subrange(off + j, h.len() as int));
        },
    }
}


/// The timestamp update of a text that starts with whole lines: those lines become
/// lines holding no `bm` (neither the old lines nor the date do), and the rest is
/// updated on its own.
proof fn lemma_stamp_prefix(p: Seq<char>, r: Seq<char>, t: Seq<char>, bm: Seq<char>)
    requires
        p.len() == 0 || p.last() == '\n',
        !contains_seq(p, bm),
        bm.len() > 0,
        bm[0] == '<',
        !bm.contains('\n'),
        !bm.contains('\r'),
        !contains_seq(t, bm),
    ensures
        exists|a: Seq<char>|
            timestamp_updated(p + r, t) == a + timestamp_updated(r, t) && !contains_seq(a, bm) && (a.len() == 0
                || a.last() == '\n'),
    decreases p.len(),
{
    if p.len() == 0 {
        assert(p + r =~= r);
        let a = Seq::<char>::empty();
        assert(a + timestamp_updated(r, t) =~= timestamp_updated(r, t));
        assert(!contains_seq(a, bm));
    } else {
        let nl = seq!['\n'];
        let y = p + r;
        lemma_find_from_result(p, nl, 0);
        assert(matches_at(p, nl, p.len() - 1)) by {
            assert(p.subrange(p.len() - 1, p.len() as int) =~= nl);
        }
        let i = find_from(p, nl, 0)->Some_0;
        lemma_find_from_prefix(p, r, nl, 0);
        lemma_stamp_first_line(y, t);
        assert(y.take(i) =~= p.take(i));
        let line = p.take(i);
        let first = stamped_raw(line, t);
        let p2 = p.skip(i + 1);
        assert(y.skip(i + 1) =~= p2 + r);
        assert(!contains_seq(p2, bm)) by {
            if contains_seq(p2, bm) {
                let k = choose|k: int| matches_at(p2, bm, k);
                assert(p.subrange(k + i + 1, k + i + 1 + bm.len()) =~= p2.subrange(k, k + bm.len()));
                assert(matches_at(p, bm, k + i + 1));
            }
        }
        if p2.len() > 0 {
            assert(p2.last() == p.last());
        }
        lemma_stamp_prefix(p2, r, t, bm);
        let a2 = choose|a2: Seq<char>|
            timestamp_updated(p2 + r, t) == a2 + timestamp_updated(r, t) && !contains_seq(a2, bm) && (a2.len() == 0
                || a2.last() == '\n');
        assert(!contains_seq(first, bm)) by {
            reveal_strlit("- **Updated:** ");
            if contains_seq(first, bm) {
                let k = choose|k: int| matches_at(first, bm, k);
                if updated_line(strip_cr(line)) {
                    let lit = "- **Updated:** "@;
                    let cr = line.skip(strip_cr(line).len() as int);
                    assert(first == lit + t + cr);
                    assert(cr.len() == 0 || (cr.len() == 1 && cr[0] == '\r'));
                    if k < lit.len() {
                        assert(first.subrange(k, k + bm.len())[0] == first[k]);
                        assert(first[k] == lit[k]);
                    } else if k >= lit.len() + t.len() {
                        assert(first.subrange(k, k + bm.len())[0] == first[k]);
                        assert(first[k] == cr[k - lit.len() - t.len()]);
                    } else if k + bm.len() <= lit.len() + t.len() {
                        assert(first.subrange(k, k + bm.len()) =~= t.subrange(k - lit.len(), k - lit.len() + bm.len()));
                        assert(matches_at(t, bm, k - lit.len()));
                    } else {
                        let at = lit.len() + t.len() - k;
                        assert(first.subrange(k, k + bm.len())[at] == first[(lit.len() + t.len()) as int]);
                        assert(bm[at] == '\r');
                        assert(bm.contains(bm[at]));
                    }
                } else {
                    assert(first.subrange(k, k + bm.len()) =~= p.subrange(k, k + bm.len()));
                    assert(matches_at(p, bm, k));
                }
            }
        }
        lemma_no_match_across_newline(first, a2, bm);
        let a = first + nl + a2;
        assert(timestamp_updated(y, t) =~= a + timestamp_updated(r, t));
        if a2.len() == 0 {
            assert(a.last() == '\n');
        } else {
            assert(a.last() == a2.last());
        }
    }
}

/// The timestamp update keeps a block of lines none of which is an `- **Updated:**`
/// line and which holds no carriage return, up to and including the marker after it.
proof fn lemma_stamp_keeps_block(h: Seq<char>, e: Seq<char>, q: Seq<char>, t: Seq<char>)
    requires
        !h.contains('\r'),
        no_updated_line(h),
        e.len() > 0,
        e[0] == '<',
        !e.contains('\n'),
        !e.contains('\r'),
    ensures
        exists|w: Seq<char>| timestamp_updated(h + e + q, t) == h + e + w,
    decreases h.len(),
{
    let nl = seq!['\n'];
    let y = h + e + q;
    lemma_stamp_first_line(y, t);
    lemma_find_from_result(h, nl, 0);
    lemma_find_from_result(y, nl, 0);
    match find_from(h, nl, 0) {
        Some(i) => {
            assert(y =~= h + (e + q));
            lemma_find_from_prefix(h, e + q, nl, 0);
            assert(y.take(i) =~= h.take(i));
            assert(segment_at(h, 0) == h.take(i)) by {
                assert(h.subrange(0, i) =~= h.take(i));
            }
            assert(strip_cr(h.take(i)) == h.take(i)) by {
                if i > 0 && h.take(i).last() == '\r' {
                    assert(h.contains(h[i - 1]));
                }
            }
            assert(stamped_raw(h.take(i), t) == h.take(i));
            let h2 = h.skip(i + 1);
            assert(y.skip(i + 1) =~= h2 + e + q);
            assert(h[i] == '\n') by {
                assert(h.subrange(i, i + 1)[0] == h[i]);
            }
            assert(!h2.contains('\r')) by {
                if h2.contains('\r') {
                    let k = choose|k: int| 0 <= k < h2.len() && h2[k] == '\r';
                    assert(h[k + i + 1] == '\r');
                }
            }
            assert(no_updated_line(h2)) by {
                lemma_segment_skip(h, i + 1, 0);
                assert(!updated_line(segment_at(h, i + 1)));
                assert forall|j: int| 0 <= j < h2.len() && h2[j] == '\n' implies !updated_line(
                    #[trigger] segment_at(h2, j + 1),
                ) by {
                    lemma_segment_skip(h, i + 1, j + 1);
                    assert(h[i + 1 + j] == '\n');
                    assert(!updated_line(segment_at(h, i + 1 + j + 1)));
                }
            }
            lemma_stamp_keeps_block(h2, e, q, t);
            let w = choose|w: Seq<char>| timestamp_updated(h2 + e + q, t) == h2 + e + w;
            assert(h =~= h.take(i) + nl + h2);
            assert(timestamp_updated(y, t) =~= h + e + w);
        },
        None => {
            assert(segment_at(h, 0) =~= h);
            assert(!h.contains('\n')) by {
                if h.contains('\n') {
                    let k = choose|k: int| 0 <= k < h.len() && h[k] == '\n';
                    assert(h.subrange(k, k + 1) =~= nl);
                    assert(matches_at(h, nl, k));
                }
            }
            let he = h + e;
            assert(he.last() == e.last());
            assert(e.contains(e.last()));
            match find_from(y, nl, 0) {
                Some(j) => {
                    assert(y[j] == '\n') by {
                        assert(y.subrange(j, j + 1)[0] == y[j]);
                    }
                    assert(j >= he.len()) by {
                        if j < h.len() {
                            assert(y[j] == h[j]);
                            assert(h.contains(h[j]));
                        } else if j < he.len() {
                            assert(y[j] == e[j - h.len()]);
                            assert(e.contains(e[j - h.len()]));
                        }
                    }
                    let q0 = q.take(j - he.len());
                    assert(y.take(j) =~= he + q0);
                    let qs = strip_cr(he + q0).skip(he.len() as int);
                    assert(strip_cr(he + q0) =~= he + qs) by {
                        if q0.len() == 0 {
                            assert(he + q0 =~= he);
                        }
                    }
                    assert(h + (e + qs) =~= he + qs);
                    lemma_not_updated_before_marker(h, e + qs);
                    assert(stamped_raw(y.take(j), t) == he + q0);
                    let w = q0 + nl + timestamp_updated(y.skip(j + 1), t);
                    assert(timestamp_updated(y, t) =~= h + e + w);
                },
                None => {
                    assert(y =~= h + (e + q));
                    let qs = strip_cr(y).skip(he.len() as int);
                    assert(strip_cr(y) =~= he + qs) by {
                        if q.len() == 0 {
                            assert(y =~= he);
                        }
                    }
                    assert(h + (e + qs) =~= he + qs);
                    lemma_not_updated_before_marker(h, e + qs);
                    assert(timestamp_updated(y, t) =~= h + e + q);
                },
            }
        },
    }
}

proof fn lemma_marker_chars(name: Seq<char>)
    requires
        !name.contains('\n'),
        !name.contains('\r'),
    ensures
        !section_begin(name).contains('\n'),
        !section_begin(name).contains('\r'),
        section_begin(name).len() > 0,
        section_begin(name)[0] == '<',
        !section_end(name).contains('\n'),
        !section_end(name).contains('\r'),
        section_end(name).len() > 0,
        section_end(name)[0] == '<',
{
    reveal_strlit(" -->");
    reveal_strlit("<!-- ARCHDOC:BEGIN section=");
    reveal_strlit("<!-- ARCHDOC:END section=");
    let bt = section_begin(name);
    let et = section_end(name);
    assert forall|k: int| 0 <= k < bt.len() implies bt[k] != '\n' && bt[k] != '\r' by {
        let lb = "<!-- ARCHDOC:BEGIN section="@;
        if k >= lb.len() && k < lb.len() + name.len() {
            assert(bt[k] == name[k - lb.len()]);
            assert(name.contains(name[k - lb.len()]));
        }
    }
    assert forall|k: int| 0 <= k < et.len() implies et[k] != '\n' && et[k] != '\r' by {
        let le = "<!-- ARCHDOC:END section="@;
        if k >= le.len() && k < le.len() + name.len() {
            assert(et[k] == name[k - le.len()]);
            assert(name.contains(name[k - le.len()]));
        }
    }
}

/// A begin marker followed by generated text is a block of lines none of which is an
/// `- **Updated:**` line and which holds no carriage return.
proof fn lemma_block_clean(bt: Seq<char>, g: Seq<char>)
    requires
        !bt.contains('\n'),
        !bt.contains('\r'),
        bt.len() > 0,
        bt[0] == '<',
        !g.contains('\r'),
        no_updated_line_after_first(g),
    ensures
        !(bt + g).contains('\r'),
        no_updated_line(bt + g),
{
    let h = bt + g;
    assert(!h.contains('\r')) by {
        if h.contains('\r') {
            let k = choose|k: int| 0 <= k < h.len() && h[k] == '\r';
            if k < bt.len() {
                assert(bt.contains(bt[k]));
            } else {
                assert(g[k - bt.len()] == '\r');
                assert(g.contains(g[k - bt.len()]));
            }
        }
    }
    let nl = seq!['\n'];
    lemma_find_from_result(h, nl, 0);
    let seg = segment_at(h, 0);
    assert(seg.len() > 0 && seg[0] == '<') by {
        match find_from(h, nl, 0) {
            Some(j) => {
                assert(h[j] == '\n') by {
                    assert(h.subrange(j, j + 1)[0] == h[j]);
                }
                if j < bt.len() {
                    assert(h[j] == bt[j]);
                    assert(bt.contains(bt[j]));
                }
                assert(seg[0] == h[0]);
            },
            None => {},
        }
    }
    assert(!updated_line(Seq::<char>::empty())) by {
        reveal_strlit("- **Updated:**");
    }
    assert(Seq::<char>::empty() + seg =~= seg);
    lemma_not_updated_before_marker(Seq::<char>::empty(), seg);
    assert forall|i: int| 0 <= i < h.len() && h[i] == '\n' implies !updated_line(#[trigger] segment_at(h, i + 1)) by {
        if i < bt.len() {
            assert(h[i] == bt[i]);
            assert(bt.contains(bt[i]));
        }
        assert(h.skip(bt.len() as int) =~= g);
        lemma_segment_skip(h, bt.len() as int, i + 1 - bt.len());
        assert(g[i - bt.len()] == '\n');
        assert(!updated_line(segment_at(g, i - bt.len() + 1)));
    }
}

/// In `a + bt + g + et + w`, where `a` holds no begin marker and ends a line, the first
/// section is `bt + g + et`, and writing `g` into it gives the same text.
proof fn lemma_first_span_after_lines(a: Seq<char>, bt: Seq<char>, g: Seq<char>, et: Seq<char>, w: Seq<char>)
    requires
        !contains_seq(a, bt),
        a.len() == 0 || a.last() == '\n',
        !bt.contains('\n'),
        bt.len() > 0,
        et.len() > 0,
        find_from(g + et, et, 0) == Some(g.len() as int),
    ensures
        markers_from(a + bt + g + et + w, bt, et, 0).len() > 0,
        markers_from(a + bt + g + et + w, bt, et, 0)[0] == (a.len() as int, (a.len() + bt.len() + g.len() + et.len()) as int),
        spliced(
            a + bt + g + et + w,
            a.len() as int,
            (a.len() + bt.len() + g.len() + et.len()) as int,
            bt,
            g,
            et,
        ) == a + bt + g + et + w,
{
    let x1 = a + bt + g + et + w;
    let al = a.len() as int;
    assert forall|k: int| 0 <= k < al implies !matches_at(x1, bt, k) by {
        if matches_at(x1, bt, k) {
            if k + bt.len() <= al {
                assert(x1.subrange(k, k + bt.len()) =~= a.subrange(k, k + bt.len()));
                assert(matches_at(a, bt, k));
            } else {
                assert(x1[al - 1] == a.last());
                assert(x1.subrange(k, k + bt.len())[al - 1 - k] == x1[al - 1]);
                assert(bt[al - 1 - k] == '\n');
                assert(bt.contains(bt[al - 1 - k]));
            }
        }
    }
    assert(x1.subrange(al, al + bt.len()) =~= bt);
    crate::text::lemma_find_from_some(x1, bt, 0, al);
    let from = al + bt.len();
    lemma_find_from_prefix(g + et, w, et, 0);
    assert(x1.skip(from) =~= g + et + w);
    lemma_find_from_skip(x1, et, from, 0);
    assert(find_from(x1, et, from) == Some(from + g.len()));
    lemma_find_from_result(x1, et, from);
    let stop = from + g.len() + et.len();
    assert(markers_from(x1, bt, et, 0) == seq![(al, stop)] + markers_from(x1, bt, et, stop));
    assert(x1.take(al) =~= a);
    assert(x1.skip(stop) =~= w);
    assert(spliced(x1, al, stop, bt, g, et) =~= x1);
}

/// Writing a section keeps the document outside its markers character for character,
/// line breaks included: when the new text has no `- **Updated:**` line, the result is
/// the text before the first span of the section, its markers around the generated
/// text, and the text after the span.
pub proof fn lemma_update_keeps_text_outside(
    existing: Seq<char>,
    generated: Seq<char>,
    name: Seq<char>,
    today: Seq<char>,
)
    requires
        section_spans(existing, name).len() > 0,
        no_stamped_line(
            spliced(
                existing,
                section_spans(existing, name)[0].0,
                section_spans(existing, name)[0].1,
                section_begin(name),
                generated,
                section_end(name),
            ),
        ),
    ensures
        section_update_spec(existing, generated, name, today) == Some(
            existing.take(section_spans(existing, name)[0].0) + section_begin(name) + generated + section_end(name)
                + existing.skip(section_spans(existing, name)[0].1),
        ),
{
    let spans = section_spans(existing, name);
    let new = spliced(existing, spans[0].0, spans[0].1, section_begin(name), generated, section_end(name));
    lemma_timestamp_keeps_plain_text(new, today);
}

/// Regenerating documentation twice changes nothing the second time: once a section
/// has been updated with some text, updating it again with the same text returns the
/// document unchanged, its date included. This holds when the section's begin marker
/// starts a line, the section name holds no line break, the generated text holds no
/// carriage return, no end marker and no `- **Updated:**` line after its first, and
/// the first date holds no begin marker; otherwise the date rewrite can alter the
/// section itself.
pub proof fn lemma_repeated_update_is_stable(
    existing: Seq<char>,
    generated: Seq<char>,
    name: Seq<char>,
    t1: Seq<char>,
    t2: Seq<char>,
)
    requires
        section_spans(existing, name).len() > 0,
        section_spans(existing, name)[0].0 == 0 || existing[section_spans(existing, name)[0].0 - 1] == '\n',
        !name.contains('\n'),
        !name.contains('\r'),
        !generated.contains('\r'),
        no_updated_line_after_first(generated),
        find_from(generated + section_end(name), section_end(name), 0) == Some(generated.len() as int),
        !contains_seq(t1, section_begin(name)),
    ensures
        ({
            let once = section_update_spec(existing, generated, name, t1);
            &&& once is Some
            &&& section_update_spec(once->Some_0, generated, name, t2) == once
        }),
{
    let bt = section_begin(name);
    let et = section_end(name);
    let g = generated;
    lemma_marker_chars(name);
    lemma_markers_sound(existing, bt, et, 0);
    lemma_find_from_result(existing, bt, 0);
    let spans = section_spans(existing, name);
    let s0 = spans[0].0;
    let e0 = spans[0].1;
    assert(find_from(existing, bt, 0) == Some(s0));
    let n1 = spliced(existing, s0, e0, bt, g, et);
    if n1 == existing {
        lemma_unchanged_section_keeps_document(existing, g, name, t2);
        return;
    }
    let pre = existing.take(s0);
    let post = existing.skip(e0);
    let h = bt + g;
    let tail = h + et + post;
    assert(n1 =~= pre + tail);
    assert(!contains_seq(pre, bt)) by {
        if contains_seq(pre, bt) {
            let k = choose|k: int| matches_at(pre, bt, k);
            assert(existing.subrange(k, k + bt.len()) =~= pre.subrange(k, k + bt.len()));
            assert(matches_at(existing, bt, k));
        }
    }
    if pre.len() > 0 {
        assert(pre.last() == existing[s0 - 1]);
    }
    lemma_stamp_prefix(pre, tail, t1, bt);
    let a = choose|a: Seq<char>|
        timestamp_updated(pre + tail, t1) == a + timestamp_updated(tail, t1) && !contains_seq(a, bt) && (a.len() == 0
            || a.last() == '\n');
    lemma_block_clean(bt, g);
    lemma_stamp_keeps_block(h, et, post, t1);
    let w = choose|w: Seq<char>| timestamp_updated(h + et + post, t1) == h + et + w;
    let x1 = a + bt + g + et + w;
    assert(timestamp_updated(n1, t1) =~= x1);
    assert(section_update_spec(existing, g, name, t1) == Some(x1));
    lemma_first_span_after_lines(a, bt, g, et, w);
}

} // verus!
