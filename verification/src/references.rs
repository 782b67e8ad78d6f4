//! Name-to-source-position helpers for rename and find-references.
//!
//! Everything here is token-precise: spans come from the lexer over the
//! exact source slice, never from a text search for the identifier.
use crate::parser::tokenize;
use crate::query::{line_col_of, spec_line_col_of};
use crate::span::{Pos, Span};
use crate::text::{
    char_index_of_byte, chars_of, spec_utf8_len_seq, str_eq, string_from_chars, utf8_total,
};
use crate::token::{lex_ok, lex_tokens, tok_view, tok_views, LexKind, TokenKind};
use crate::parser::file_symbols;
use vstd::prelude::*;

verus! {

/// A span whose lines and columns agree with its offsets in `doc`.
pub open spec fn positions_agree(doc: Seq<char>, span: Span) -> bool {
    &&& spec_line_col_of(doc, span.start.offset as int) == (
        span.start.line as int,
        span.start.column as int,
    )
    &&& spec_line_col_of(doc, span.end.offset as int) == (span.end.line as int, span.end.column as int)
}

/// The text of `doc` between the span's byte offsets (the start clamped to
/// the text, the end clamped between the start and the text's end);
/// `None` when a bound falls inside a character.
fn slice_of(doc: &str, span: Span) -> (r: Option<String>)
    ensures
        ({
            let (start, end) = clamped(doc@, span);
            &&& r is Some <==> byte_boundary(doc@, start) && byte_boundary(doc@, end)
            &&& r matches Some(t) ==> exists|a: int, b: int|
                0 <= a <= b <= doc@.len() && spec_utf8_len_seq(#[trigger] doc@.take(a)) == start
                    && spec_utf8_len_seq(#[trigger] doc@.take(b)) == end && t@ == doc@.subrange(a, b)
        }),
        r is Some <==> slice_text(doc@, span) is Some,
        r matches Some(t) ==> slice_text(doc@, span) == Some(t@),
{
    let chars = chars_of(doc);
    let len = utf8_total(&chars);
    let start = if span.start.offset < len {
        span.start.offset
    } else {
        len
    };
    let end = if span.end.offset < start {
        start
    } else if span.end.offset > len {
        len
    } else {
        span.end.offset
    };
    let a = match char_index_of_byte(&chars, start) {
        Some(a) => a,
        None => {
            return None;
        },
    };
    let b = match char_index_of_byte(&chars, end) {
        Some(b) => b,
        None => {
            return None;
        },
    };
    if a > b {
        proof {
            crate::text::lemma_utf8_len_monotone(chars@, b as int, a as int);
        }
        return None;
    }
    let r = string_from_chars(vstd::slice::slice_subrange(chars.as_slice(), a, b));
    proof {
        assert(spec_utf8_len_seq(doc@.take(a as int)) == start);
        assert(spec_utf8_len_seq(doc@.take(b as int)) == end);
        lemma_char_at_byte(doc@, a as int);
        lemma_char_at_byte(doc@, b as int);
    }
    Some(r)
}

/// The span's byte offsets clamped to `doc`: the start to the text, the
/// end between the start and the text's end.
pub open spec fn clamped(doc: Seq<char>, span: Span) -> (int, int) {
    let len = spec_utf8_len_seq(doc) as int;
    let start = if span.start.offset < len {
        span.start.offset as int
    } else {
        len
    };
    let end = if span.end.offset < start {
        start
    } else if span.end.offset > len {
        len
    } else {
        span.end.offset as int
    };
    (start, end)
}

/// The character index at byte offset `offset` of `doc` (where one is).
pub open spec fn char_at_byte(doc: Seq<char>, offset: int) -> int {
    choose|k: int| 0 <= k <= doc.len() && spec_utf8_len_seq(#[trigger] doc.take(k)) == offset
}

/// The text of `doc` between the span's clamped byte offsets; `None` when
/// a bound falls inside a character.
pub open spec fn slice_text(doc: Seq<char>, span: Span) -> Option<Seq<char>> {
    let (start, end) = clamped(doc, span);
    if byte_boundary(doc, start) && byte_boundary(doc, end) {
        Some(doc.subrange(char_at_byte(doc, start), char_at_byte(doc, end)))
    } else {
        None
    }
}

proof fn lemma_char_at_byte(doc: Seq<char>, k: int)
    requires
        0 <= k <= doc.len(),
    ensures
        char_at_byte(doc, spec_utf8_len_seq(doc.take(k)) as int) == k,
{
    let off = spec_utf8_len_seq(doc.take(k)) as int;
    assert(byte_boundary(doc, off));
    let c = char_at_byte(doc, off);
    assert(0 <= c <= doc.len() && spec_utf8_len_seq(doc.take(c)) == off);
    if c < k {
        crate::text::lemma_utf8_len_monotone(doc, c, k);
    } else if k < c {
        crate::text::lemma_utf8_len_monotone(doc, k, c);
    }
}

/// The index from `k` on of the first identifier token (after the first
/// token) that reads `name` (any identifier when `name` is `None`).
pub open spec fn first_named(t: Seq<(LexKind, int, int)>, name: Option<Seq<char>>, k: int) -> Option<int>
    decreases t.len() - k,
{
    if k < 0 || k >= t.len() {
        None
    } else if k >= 1 && (t[k].0 matches LexKind::Ident(x) && (name matches Some(w) ==> x == w)) {
        Some(k)
    } else {
        first_named(t, name, k + 1)
    }
}

/// The byte offsets (within `slice`) of the identifier that `first_named`
/// finds among the tokens of `slice`, when it lexes.
pub open spec fn ident_hit(slice: Seq<char>, name: Option<Seq<char>>) -> Option<(int, int)> {
    let syms = file_symbols(slice, Seq::empty());
    let t = lex_tokens(slice, 0, syms);
    if lex_ok(slice, 0, syms) {
        match first_named(t, name, 0) {
            Some(k) => Some((t[k].1, t[k].2)),
            None => None,
        }
    } else {
        None
    }
}

/// The name of a declaration in its command's text: the name itself, else
/// its last dotted segment.
pub open spec fn decl_hit(slice: Seq<char>, name: Seq<char>) -> Option<(int, int)> {
    match ident_hit(slice, Some(name)) {
        Some(h) => Some(h),
        None => if last_segment(name) != name {
            ident_hit(slice, Some(last_segment(name)))
        } else {
            None
        },
    }
}

/// `a + b`, held at the largest `usize`.
pub open spec fn saturated(a: int, b: int) -> int {
    if a + b > usize::MAX {
        usize::MAX as int
    } else {
        a + b
    }
}

/// Byte offset `offset` of `doc` falls between two characters.
pub open spec fn byte_boundary(doc: Seq<char>, offset: int) -> bool {
    exists|k: int| 0 <= k <= doc.len() && spec_utf8_len_seq(#[trigger] doc.take(k)) == offset
}

/// Shift a slice-relative span by `base` bytes into document coordinates,
/// recomputing lines and columns against `doc`.
fn rebase(span: Span, doc: &str, base: usize) -> (r: Span)
    ensures
        r.start.offset == span.start.offset.saturating_add(base),
        r.end.offset == span.end.offset.saturating_add(base),
        positions_agree(doc@, r),
{
    let start = span.start.offset.saturating_add(base);
    let end = span.end.offset.saturating_add(base);
    let (start_line, start_column) = line_col_of(doc, start);
    let (end_line, end_column) = line_col_of(doc, end);
    Span {
        start: Pos { offset: start, line: start_line, column: start_column },
        end: Pos { offset: end, line: end_line, column: end_column },
    }
}

/// The first identifier of `slice` after its first token whose text is
/// `name` (any identifier when `name` is `None`), in document coordinates.
fn first_ident_span(slice: &str, doc: &str, base: usize, name: Option<&str>) -> (r: Option<Span>)
    ensures
        r matches Some(s) ==> positions_agree(doc@, s) && s.start.offset >= base,
        ({
            let nm = match name {
                Some(w) => Some(w@),
                None => None,
            };
            &&& r is Some <==> ident_hit(slice@, nm) is Some
            &&& r matches Some(s) ==> (ident_hit(slice@, nm) matches Some((a, b)) && s.start.offset == saturated(
                a,
                base as int,
            ) && s.end.offset == saturated(b, base as int))
        }),
{
    let ghost nm = match name {
        Some(w) => Some(w@),
        None => None,
    };
    let tokens = match tokenize(slice) {
        Ok(tokens) => tokens,
        Err(_) => {
            return None;
        },
    };
    let ghost t = tok_views(tokens@);
    let mut position: usize = 0;
    while position < tokens.len()
        invariant
            t == tok_views(tokens@),
            t == lex_tokens(slice@, 0, file_symbols(slice@, Seq::empty())),
            lex_ok(slice@, 0, file_symbols(slice@, Seq::empty())),
            nm == match name {
                Some(w) => Some(w@),
                None => None::<Seq<char>>,
            },
            first_named(t, nm, position as int) == first_named(t, nm, 0),
        decreases tokens.len() - position,
    {
        let token = &tokens[position];
        proof {
            assert(t[position as int] == tok_view(tokens@[position as int]));
        }
        match &token.kind {
            TokenKind::Ident(text) => {
                // The first token of a command slice is its keyword; a
                // binder slice starts with a bracket.
                if position > 0 {
                    let matches = match name {
                        Some(want) => str_eq(text.as_str(), want),
                        None => true,
                    };
                    if matches {
                        let r = rebase(token.span, doc, base);
                        return Some(r);
                    }
                }
            },
            _ => {},
        }
        position = position + 1;
    }
    None
}

/// `k` is where the last dotted segment of `name` starts.
pub open spec fn segment_cut(name: Seq<char>, k: int) -> bool {
    &&& 0 <= k <= name.len()
    &&& (k == 0 || name[k - 1] == '.')
    &&& forall|j: int| k <= j < name.len() ==> name[j] != '.'
}

/// The text after the last `.` of `name` (all of it when it has none).
pub open spec fn last_segment(name: Seq<char>) -> Seq<char> {
    let cut = choose|k: int| #[trigger] segment_cut(name, k);
    name.subrange(cut, name.len() as int)
}

fn last_segment_of(name: &str) -> (r: String)
    ensures
        r@ == last_segment(name@),
{
    let chars = chars_of(name);
    let mut k: usize = chars.len();
    while k > 0 && chars[k - 1] != '.'
        invariant
            chars@ == name@,
            k <= chars@.len(),
            forall|j: int| k <= j < chars@.len() ==> chars@[j] != '.',
        decreases k,
    {
        k = k - 1;
    }
    proof {
        assert(segment_cut(name@, k as int));
        let cut = choose|c: int| #[trigger] segment_cut(name@, c);
        if cut < k {
            assert(name@[k - 1] != '.');
        } else if cut > k {
            assert(name@[cut - 1] != '.');
        }
    }
    string_from_chars(vstd::slice::slice_subrange(chars.as_slice(), k, chars.len()))
}

/// The span (document coordinates) of the name token inside the command
/// spanning `decl_span` that declares `name`: the first identifier after
/// the command keyword that matches `name`, or else its last dotted
/// segment (a constructor's canonical `Wrap.mk` is written `mk`).
pub fn decl_name_span(doc: &str, decl_span: Span, name: &str) -> (r: Option<Span>)
    ensures
        r matches Some(s) ==> positions_agree(doc@, s),
        r is Some <==> (slice_text(doc@, decl_span) matches Some(sl) && decl_hit(sl, name@) is Some),
        r matches Some(s) ==> (slice_text(doc@, decl_span) matches Some(sl) && (decl_hit(sl, name@) matches Some(
            (a, b),
        ) && s.start.offset == saturated(a, decl_span.start.offset as int) && s.end.offset == saturated(
            b,
            decl_span.start.offset as int,
        ))),
{
    let slice = match slice_of(doc, decl_span) {
        Some(slice) => slice,
        None => {
            return None;
        },
    };
    let base = decl_span.start.offset;
    match first_ident_span(slice.as_str(), doc, base, Some(name)) {
        Some(span) => {
            return Some(span);
        },
        None => {},
    }
    let tail = last_segment_of(name);
    if str_eq(tail.as_str(), name) {
        return None;
    }
    let r = first_ident_span(slice.as_str(), doc, base, Some(tail.as_str()));
    r
}

/// The span (document coordinates) of a binder's name token: the first
/// identifier inside the binder's source span.
pub fn binder_name_span(doc: &str, binder_span: Span) -> (r: Option<Span>)
    ensures
        r matches Some(s) ==> positions_agree(doc@, s),
        r is Some <==> (slice_text(doc@, binder_span) matches Some(sl) && ident_hit(sl, None) is Some),
        r matches Some(s) ==> (slice_text(doc@, binder_span) matches Some(sl) && (ident_hit(sl, None) matches Some(
            (a, b),
        ) && s.start.offset == saturated(a, binder_span.start.offset as int) && s.end.offset == saturated(
            b,
            binder_span.start.offset as int,
        ))),
{
    let slice = match slice_of(doc, binder_span) {
        Some(slice) => slice,
        None => {
            return None;
        },
    };
    first_ident_span(slice.as_str(), doc, binder_span.start.offset, None)
}

} // verus!
