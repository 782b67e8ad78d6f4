//! The vocabulary of compile-session events, and the pure steps of
//! reusing the results of an earlier version of a document: where two
//! versions start to differ, which command holds an offset, and a span
//! moved from an old command into its new place.
use crate::ast::Command;
use crate::span::{Pos, Span};
use crate::text::{chars_of, spec_utf8_len, spec_utf8_len_seq, str_eq, utf8_len, utf8_total};
use vstd::prelude::*;

verus! {

/// The stable names of session events.
#[derive(Debug, Clone, Copy, PartialEq, Eq, Structural)]
pub enum SessionEventKind {
    DeclChecked,
    DeclFailed,
    ExerciseOpened,
    ExerciseSolved,
    ExerciseFailed,
}

impl SessionEventKind {
    pub open spec fn spec_code(self) -> &'static str {
        match self {
            SessionEventKind::DeclChecked => "decl.checked",
            SessionEventKind::DeclFailed => "decl.failed",
            SessionEventKind::ExerciseOpened => "exercise.opened",
            SessionEventKind::ExerciseSolved => "exercise.solved",
            SessionEventKind::ExerciseFailed => "exercise.failed",
        }
    }

    /// The event's stable code.
    pub fn code(self) -> (r: &'static str)
        ensures
            r == self.spec_code(),
    {
        match self {
            SessionEventKind::DeclChecked => "decl.checked",
            SessionEventKind::DeclFailed => "decl.failed",
            SessionEventKind::ExerciseOpened => "exercise.opened",
            SessionEventKind::ExerciseSolved => "exercise.solved",
            SessionEventKind::ExerciseFailed => "exercise.failed",
        }
    }
}

/// A change of a declaration's state between two versions of a document.
#[derive(Debug, Clone, PartialEq, Eq)]
pub struct SessionEvent {
    pub kind: SessionEventKind,
    pub name: Option<String>,
    pub version: u64,
}

/// A declaration's text and where it starts, as compared across versions.
pub struct DeclKey {
    pub text: String,
    pub start: usize,
}

/// The first index at which the declaration texts of two versions differ
/// (a missing declaration counts as different): every declaration before it
/// is unchanged.
pub fn first_diff(new_keys: &[DeclKey], old_keys: &[DeclKey]) -> (r: usize)
    ensures
        r <= new_keys@.len(),
        r <= old_keys@.len(),
        forall|i: int| 0 <= i < r ==> (#[trigger] new_keys@[i]).text@ == old_keys@[i].text@,
        r < new_keys@.len() && r < old_keys@.len() ==> new_keys@[r as int].text@ != old_keys@[r as int].text@,
{
    let mut i: usize = 0;
    while i < new_keys.len() && i < old_keys.len()
        invariant
            i <= new_keys@.len(),
            i <= old_keys@.len(),
            forall|k: int| 0 <= k < i ==> (#[trigger] new_keys@[k]).text@ == old_keys@[k].text@,
        decreases new_keys.len() - i,
    {
        if !str_eq(new_keys[i].text.as_str(), old_keys[i].text.as_str()) {
            return i;
        }
        i = i + 1;
    }
    i
}

/// Walking `s` from character `k` (at byte `byte`, position `line`:`col`)
/// up to byte `offset`: the position reached, counting characters.
pub open spec fn char_line_col(s: Seq<char>, k: int, byte: int, offset: int, line: int, col: int) -> (int, int)
    decreases s.len() - k,
{
    if k < 0 || k >= s.len() || byte >= offset {
        (line, col)
    } else if s[k] == '\n' {
        char_line_col(s, k + 1, byte + spec_utf8_len(s[k]), offset, line + 1, 1)
    } else {
        char_line_col(s, k + 1, byte + spec_utf8_len(s[k]), offset, line, col + 1)
    }
}

/// The 1-based line and column (in characters) of byte `offset` of `src`.
pub fn char_position(src: &str, offset: usize) -> (r: (usize, usize))
    ensures
        (r.0 as int, r.1 as int) == char_line_col(src@, 0, 0, offset as int, 1, 1),
{
    let chars = chars_of(src);
    proof {
        crate::text::lemma_utf8_len_at_least_count(chars@);
    }
    let mut line: usize = 1;
    let mut col: usize = 1;
    let mut byte: usize = 0;
    let mut i: usize = 0;
    while i < chars.len() && byte < offset
        invariant
            chars@ == src@,
            i <= chars@.len(),
            chars@.len() <= spec_utf8_len_seq(chars@) <= isize::MAX,
            byte == spec_utf8_len_seq(chars@.take(i as int)),
            1 <= line <= i + 1,
            1 <= col <= i + 1,
            char_line_col(chars@, i as int, byte as int, offset as int, line as int, col as int)
                == char_line_col(chars@, 0, 0, offset as int, 1, 1),
        decreases chars.len() - i,
    {
        proof {
            crate::text::lemma_utf8_len_prefix(chars@, i as int);
        }
        let ch = chars[i];
        if ch == '\n' {
            line = line + 1;
            col = 1;
        } else {
            col = col + 1;
        }
        byte = byte + utf8_len(ch);
        i = i + 1;
    }
    (line, col)
}

/// `a - b`, or 0 below zero.
pub open spec fn sub_or_zero(a: int, b: int) -> int {
    if a >= b {
        a - b
    } else {
        0
    }
}

pub open spec fn min_of(a: int, b: int) -> int {
    if a <= b {
        a
    } else {
        b
    }
}

/// Where byte `offset` of the old command `old_cmd` lands in the new
/// command `new_cmd` of a text of `len` bytes: the same distance from the
/// command's start (at most the old command's width), within the text.
pub open spec fn moved_offset(offset: int, old_cmd: Span, new_cmd: Span, len: int) -> int {
    let width = sub_or_zero(old_cmd.end.offset as int, old_cmd.start.offset as int);
    min_of(new_cmd.start.offset + min_of(sub_or_zero(offset, old_cmd.start.offset as int), width), len)
}

/// A span of an old command moved into the same command's place in the new
/// text, lines and columns counted again in the new text.
pub fn remap_span(span: Span, old_cmd: Span, new_cmd: Span, new_src: &str) -> (r: Span)
    requires
        new_cmd.start.offset + sub_or_zero(old_cmd.end.offset as int, old_cmd.start.offset as int) <= usize::MAX,
    ensures
        r.start.offset == moved_offset(span.start.offset as int, old_cmd, new_cmd, spec_utf8_len_seq(new_src@) as int),
        r.end.offset == moved_offset(span.end.offset as int, old_cmd, new_cmd, spec_utf8_len_seq(new_src@) as int),
        (r.start.line as int, r.start.column as int) == char_line_col(new_src@, 0, 0, r.start.offset as int, 1, 1),
        (r.end.line as int, r.end.column as int) == char_line_col(new_src@, 0, 0, r.end.offset as int, 1, 1),
{
    let old_width = old_cmd.end.offset.saturating_sub(old_cmd.start.offset);
    let a = span.start.offset.saturating_sub(old_cmd.start.offset);
    let rel_start = if a < old_width {
        a
    } else {
        old_width
    };
    let b = span.end.offset.saturating_sub(old_cmd.start.offset);
    let rel_end = if b < old_width {
        b
    } else {
        old_width
    };
    let base = new_cmd.start.offset;
    let chars = chars_of(new_src);
    let len = utf8_total(&chars);
    let s_off = if base + rel_start < len {
        base + rel_start
    } else {
        len
    };
    let e_off = if base + rel_end < len {
        base + rel_end
    } else {
        len
    };
    let (sl, sc) = char_position(new_src, s_off);
    let (el, ec) = char_position(new_src, e_off);
    Span { start: Pos { offset: s_off, line: sl, column: sc }, end: Pos { offset: e_off, line: el, column: ec } }
}

/// The last of `spans` from index 0 to `k` (exclusive) that contains byte
/// `offset` (an empty span holds its start).
pub open spec fn last_containing(spans: Seq<Span>, offset: int, k: int) -> Option<int>
    decreases k,
{
    if k <= 0 {
        None
    } else if spans[k - 1].start.offset <= offset && offset < if spans[k - 1].end.offset
        > spans[k - 1].start.offset {
        spans[k - 1].end.offset as int
    } else {
        spans[k - 1].start.offset + 1
    } {
        Some(k - 1)
    } else {
        last_containing(spans, offset, k - 1)
    }
}

pub open spec fn command_spans(commands: Seq<Command>) -> Seq<Span> {
    commands.map_values(|c: Command| c.spec_span())
}

/// The index of the command that holds byte `offset` (the last one, where
/// several do).
pub fn containing_command(commands: &[Command], offset: usize) -> (r: Option<usize>)
    ensures
        r matches Some(j) ==> last_containing(command_spans(commands@), offset as int, commands@.len() as int)
            == Some(j as int),
        r is None ==> last_containing(command_spans(commands@), offset as int, commands@.len() as int) is None,
{
    let mut j: usize = commands.len();
    while j > 0
        invariant
            j <= commands@.len(),
            forall|q: int|
                j <= q < commands@.len() ==> !({
                    let sp = (#[trigger] commands@[q]).spec_span();
                    sp.start.offset <= offset && offset < if sp.end.offset > sp.start.offset {
                        sp.end.offset as int
                    } else {
                        sp.start.offset + 1
                    }
                }),
            last_containing(command_spans(commands@), offset as int, commands@.len() as int) == last_containing(
                command_spans(commands@),
                offset as int,
                j as int,
            ),
        decreases j,
    {
        let span = commands[j - 1].span();
        proof {
            assert(command_spans(commands@)[j - 1] == commands@[j - 1].spec_span());
        }
        let holds = if span.end.offset > span.start.offset {
            span.start.offset <= offset && offset < span.end.offset
        } else {
            span.start.offset <= offset && offset <= span.start.offset
        };
        if holds {
            return Some(j - 1);
        }
        j = j - 1;
    }
    None
}

} // verus!
