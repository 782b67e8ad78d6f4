//! The query layer's answer types (editor-independent truths about a
//! document) and the one conversion between byte offsets and 1-based
//! line/column positions (columns in UTF-16 code units).
use crate::text::{
    chars_of, lemma_utf8_len_at_least_count, lemma_utf8_len_monotone, lemma_utf8_len_prefix, spec_utf16_len, spec_utf8_len, spec_utf8_len_seq,
    utf16_len, utf8_len,
};
use crate::span::Span;
use vstd::prelude::*;

verus! {

/// A semantic run (a coloured fragment); `kind: None` is plain text.
#[derive(Debug, Clone, PartialEq, Eq)]
pub struct RunInfo {
    pub text: String,
    pub kind: Option<String>,
}

/// A hypothesis and the semantic runs of its type.
#[derive(Debug, Clone, PartialEq, Eq)]
pub struct BinderInfo {
    pub name: String,
    pub ty: String,
    pub ty_runs: Vec<RunInfo>,
}

/// A `sorry` hole: its range and its stable id (`<declName>:<index>`).
#[derive(Debug, Clone, PartialEq, Eq)]
pub struct HoleInfo {
    pub start: usize,
    pub end: usize,
    pub id: String,
    /// Removing this `sorry` would let the whole declaration check.
    pub redundant: bool,
}

/// The expected type of a sub-hole of a constructor spine (`None`: unknown).
#[derive(Debug, Clone, PartialEq, Eq)]
pub struct SubGoalInfo {
    pub start: usize,
    pub end: usize,
    pub ty: Option<String>,
}

/// A code action suggested by the kernel.
#[derive(Debug, Clone, PartialEq, Eq)]
pub struct CodeActionInfo {
    pub title: String,
    pub kind: String,
    pub is_preferred: bool,
}

/// The full state of one declaration.
#[derive(Debug, Clone, PartialEq, Eq)]
pub struct DeclInfo {
    pub name: String,
    pub kind: String,
    pub status: String,
    pub start: usize,
    pub end: usize,
    pub ty: Option<String>,
    pub ty_runs: Vec<RunInfo>,
    /// The declared value (`def` only).
    pub value: Option<String>,
    pub value_runs: Vec<RunInfo>,
    pub goal: Option<String>,
    pub goals: Vec<String>,
    pub binders: Vec<BinderInfo>,
    pub hole: Option<(usize, usize)>,
    pub holes: Vec<HoleInfo>,
    pub sub_goals: Vec<SubGoalInfo>,
    pub code_actions: Vec<CodeActionInfo>,
}

/// One open goal.
#[derive(Debug, Clone, PartialEq, Eq)]
pub struct GoalInfo {
    pub goal: String,
    pub goal_runs: Vec<RunInfo>,
    pub binders: Vec<BinderInfo>,
}

/// A declaration summary (which declaration a position falls in).
#[derive(Debug, Clone, PartialEq, Eq)]
pub struct DeclHeader {
    pub name: String,
    pub kind: String,
    pub status: String,
    pub start: usize,
    pub end: usize,
}

/// The goal state at a position. The single-valued fields repeat
/// `goals[0]`; `goals` is the full list (current goal first).
#[derive(Debug, Clone, PartialEq, Eq)]
pub struct StateAnswer {
    pub version: u64,
    pub decl: Option<DeclHeader>,
    pub goal: Option<String>,
    pub goal_runs: Vec<RunInfo>,
    pub binders: Vec<BinderInfo>,
    pub goals: Vec<GoalInfo>,
    pub span: Option<(usize, usize)>,
    /// The selected per-tactic state; `-1` is the root state.
    pub step: i64,
    pub total: usize,
}

/// An addressable hole (`id` is its one stable reference).
#[derive(Debug, Clone, PartialEq, Eq)]
pub struct LocatedHole {
    pub id: String,
    pub start: usize,
    pub end: usize,
    pub ty: Option<String>,
    pub decl: String,
    pub redundant: bool,
}

/// The summary of one check run.
#[derive(Debug, Clone, PartialEq, Eq)]
pub struct CheckSummary {
    pub version: u64,
    pub counts: CheckCounts,
    pub failed: Vec<FailedDecl>,
    pub warnings: Vec<WarningInfo>,
}

/// Event counts, keyed like the event stream.
#[derive(Debug, Clone, Default, PartialEq, Eq)]
pub struct CheckCounts {
    pub decl_checked: usize,
    pub example_checked: usize,
    pub exercise_open: usize,
    pub expr_typed: usize,
    pub expr_reduced: usize,
    pub decl_printed: usize,
}

#[derive(Debug, Clone, PartialEq, Eq)]
pub struct FailedDecl {
    pub name: Option<String>,
    pub code: String,
    pub message: String,
    pub start: usize,
    pub end: usize,
    pub start_line: u32,
    pub start_col: u32,
    pub end_line: u32,
    pub end_col: u32,
}

#[derive(Debug, Clone, PartialEq, Eq)]
pub struct WarningInfo {
    pub code: String,
    pub message: String,
    pub hint: Option<String>,
    pub start: usize,
    pub end: usize,
    pub start_line: u32,
    pub start_col: u32,
    pub end_line: u32,
    pub end_col: u32,
}

/// The answer of a reduction.
#[derive(Debug, Clone, PartialEq, Eq)]
pub struct ReduceAnswer {
    pub value: String,
    pub ty: Option<String>,
}

/// Why a query could not be answered (as opposed to an answer that is
/// legitimately empty).
#[derive(Debug, Clone, Copy, PartialEq, Eq, Structural)]
pub enum QueryError {
    /// The source does not parse far enough to answer.
    NotParsable,
    /// The position is in no declaration.
    OutsideDeclarations,
    /// The position lies beyond the source.
    PositionOutOfRange,
}

impl QueryError {
    pub open spec fn spec_code(self) -> &'static str {
        match self {
            QueryError::NotParsable => "not-parsable",
            QueryError::OutsideDeclarations => "outside-declarations",
            QueryError::PositionOutOfRange => "position-out-of-range",
        }
    }

    /// The stable machine code.
    pub fn code(self) -> (r: &'static str)
        ensures
            r == self.spec_code(),
    {
        match self {
            QueryError::NotParsable => "not-parsable",
            QueryError::OutsideDeclarations => "outside-declarations",
            QueryError::PositionOutOfRange => "position-out-of-range",
        }
    }

    pub open spec fn spec_message(self) -> &'static str {
        match self {
            QueryError::NotParsable => "源文本无法解析，先修 parse 诊断再查询",
            QueryError::OutsideDeclarations => "该位置不在任何声明内部",
            QueryError::PositionOutOfRange => "位置超出源文本范围",
        }
    }

    /// One sentence for people and models.
    pub fn message(self) -> (r: &'static str)
        ensures
            r == self.spec_message(),
    {
        match self {
            QueryError::NotParsable => "源文本无法解析，先修 parse 诊断再查询",
            QueryError::OutsideDeclarations => "该位置不在任何声明内部",
            QueryError::PositionOutOfRange => "位置超出源文本范围",
        }
    }
}

/// The envelope of an answer: `version` lets a consumer drop stale ones.
#[derive(Debug, Clone, PartialEq, Eq)]
pub struct Answer<T> {
    pub version: u64,
    pub data: T,
}

/// One module of the closure (topological order, entry last).
#[derive(Debug, Clone, PartialEq, Eq)]
pub struct ProjectModule {
    pub name: String,
    pub path: String,
    /// `compiled` / `load-failed` / `blocked`.
    pub status: String,
    pub entry: bool,
    pub imports: Vec<String>,
    pub decls: usize,
    pub errors: usize,
    pub warnings: usize,
    pub open_exercises: usize,
    pub message: Option<String>,
}

/// A project-level diagnostic, attributed to the importing module.
#[derive(Debug, Clone, PartialEq, Eq)]
pub struct ProjectDiagnosticInfo {
    pub code: String,
    pub message: String,
    pub module: String,
    /// `error` or `warning`.
    pub severity: String,
    pub start: usize,
    pub end: usize,
}

/// Counts over the closure.
#[derive(Debug, Clone, Default, PartialEq, Eq)]
pub struct ProjectCounts {
    pub modules: usize,
    pub compiled: usize,
    pub failed: usize,
    pub blocked: usize,
    pub decls: usize,
    pub errors: usize,
    pub warnings: usize,
    pub open_exercises: usize,
}

/// The project view: root, manifest, closure modules with their states,
/// project-level diagnostics.
#[derive(Debug, Clone, PartialEq, Eq)]
pub struct ProjectView {
    pub entry: String,
    pub root: String,
    pub manifest: Option<String>,
    pub requires_warning: Option<String>,
    pub modules: Vec<ProjectModule>,
    pub diagnostics: Vec<ProjectDiagnosticInfo>,
    pub counts: ProjectCounts,
}

// ---------------------------------------------------------------------------
// Positions: byte offset <-> 1-based line and UTF-16 column.
// ---------------------------------------------------------------------------

/// Walk the characters from index `i` (at byte offset `byte`, position
/// `line`:`col`) up to the first character whose byte offset reaches
/// `offset`; the position there.
pub open spec fn walk_line_col(s: Seq<char>, i: int, byte: int, offset: int, line: int, col: int) -> (
    int,
    int,
)
    decreases s.len() - i,
{
    if i < 0 || i >= s.len() || byte >= offset {
        (line, col)
    } else if s[i] == '\n' {
        walk_line_col(s, i + 1, byte + spec_utf8_len(s[i]), offset, line + 1, 1)
    } else {
        walk_line_col(s, i + 1, byte + spec_utf8_len(s[i]), offset, line, col + spec_utf16_len(s[i]))
    }
}

/// The 1-based line and UTF-16 column of byte offset `offset` in `s`.
pub open spec fn spec_line_col_of(s: Seq<char>, offset: int) -> (int, int) {
    walk_line_col(s, 0, 0, offset, 1, 1)
}

/// Byte offset to 1-based line and column (columns in UTF-16 code units,
/// as the LSP `character`).
pub fn line_col_of(text: &str, offset: usize) -> (r: (usize, usize))
    ensures
        (r.0 as int, r.1 as int) == spec_line_col_of(text@, offset as int),
{
    let chars = chars_of(text);
    proof {
        lemma_utf8_len_at_least_count(chars@);
    }
    let mut line: usize = 1;
    let mut col: usize = 1;
    let mut byte: usize = 0;
    let mut i: usize = 0;
    while i < chars.len() && byte < offset
        invariant
            chars@ == text@,
            spec_utf8_len_seq(chars@) <= isize::MAX,
            chars@.len() <= spec_utf8_len_seq(chars@),
            i <= chars@.len(),
            byte == spec_utf8_len_seq(chars@.take(i as int)),
            1 <= line <= i + 1,
            1 <= col <= 2 * i + 1,
            walk_line_col(chars@, i as int, byte as int, offset as int, line as int, col as int)
                == spec_line_col_of(text@, offset as int),
        decreases chars.len() - i,
    {
        let ch = chars[i];
        proof {
            lemma_utf8_len_prefix(chars@, i as int);
        }
        if ch == '\n' {
            line = line + 1;
            col = 1;
        } else {
            col = col + utf16_len(ch);
        }
        byte = byte + utf8_len(ch);
        i = i + 1;
    }
    (line, col)
}

/// Walk the characters from index `i` (at byte offset `byte`, position
/// `cur_line`:`cur_col`) looking for `line`:`col`; a column past the end
/// of its line is clamped to the line's end, the last line ends at the end
/// of the text.
pub open spec fn walk_offset(
    s: Seq<char>,
    i: int,
    byte: int,
    line: int,
    col: int,
    cur_line: int,
    cur_col: int,
) -> Option<int>
    decreases s.len() - i,
{
    if i < 0 || i >= s.len() {
        if cur_line == line {
            Some(byte)
        } else {
            None
        }
    } else if cur_line == line && cur_col == col {
        Some(byte)
    } else if s[i] == '\n' {
        if cur_line == line {
            Some(byte)
        } else {
            walk_offset(s, i + 1, byte + spec_utf8_len(s[i]), line, col, cur_line + 1, 1)
        }
    } else {
        walk_offset(s, i + 1, byte + spec_utf8_len(s[i]), line, col, cur_line, cur_col + spec_utf16_len(s[i]))
    }
}

/// How many newlines `s` holds from index `i` on.
pub open spec fn newlines_from(s: Seq<char>, i: int) -> int
    decreases s.len() - i,
{
    if i < 0 || i >= s.len() {
        0
    } else {
        (if s[i] == '\n' {
            1int
        } else {
            0int
        }) + newlines_from(s, i + 1)
    }
}

proof fn lemma_newlines_nonneg(s: Seq<char>, i: int)
    ensures
        newlines_from(s, i) >= 0,
    decreases s.len() - i,
{
    if 0 <= i < s.len() {
        lemma_newlines_nonneg(s, i + 1);
    }
}

proof fn lemma_walk_past_last_line(s: Seq<char>, i: int, byte: int, line: int, col: int, cur_line: int, cur_col: int)
    requires
        0 <= i <= s.len(),
        line > cur_line + newlines_from(s, i),
    ensures
        walk_offset(s, i, byte, line, col, cur_line, cur_col) is None,
    decreases s.len() - i,
{
    lemma_newlines_nonneg(s, i);
    if i < s.len() {
        lemma_newlines_nonneg(s, i + 1);
        if s[i] == '\n' {
            lemma_walk_past_last_line(s, i + 1, byte + spec_utf8_len(s[i]), line, col, cur_line + 1, 1);
        } else {
            lemma_walk_past_last_line(
                s,
                i + 1,
                byte + spec_utf8_len(s[i]),
                line,
                col,
                cur_line,
                cur_col + spec_utf16_len(s[i]),
            );
        }
    }
}

/// A line past the last line of the text has no offset, whatever the
/// column.
pub proof fn lemma_line_past_the_end_has_no_offset(s: Seq<char>, line: int, col: int)
    requires
        line > 1 + newlines_from(s, 0),
    ensures
        spec_offset_of_line_col(s, line, col) is None,
{
    if col != 0 {
        lemma_walk_past_last_line(s, 0, 0, line, col, 1, 1);
    }
}

/// The byte offset of 1-based `line`:`col` in `s` (`None`: out of range).
pub open spec fn spec_offset_of_line_col(s: Seq<char>, line: int, col: int) -> Option<int> {
    if line == 0 || col == 0 {
        None
    } else {
        walk_offset(s, 0, 0, line, col, 1, 1)
    }
}

/// 1-based line and column (UTF-16 code units) to byte offset; `None` when
/// out of range.
pub fn offset_of_line_col(text: &str, line: usize, col: usize) -> (r: Option<usize>)
    ensures
        r matches Some(o) ==> spec_offset_of_line_col(text@, line as int, col as int) == Some(o as int),
        r is None ==> spec_offset_of_line_col(text@, line as int, col as int) is None,
{
    if line == 0 || col == 0 {
        return None;
    }
    let chars = chars_of(text);
    proof {
        lemma_utf8_len_at_least_count(chars@);
    }
    let mut cur_line: usize = 1;
    let mut cur_col: usize = 1;
    let mut byte: usize = 0;
    let mut i: usize = 0;
    while i < chars.len()
        invariant
            line > 0 && col > 0,
            chars@ == text@,
            spec_utf8_len_seq(chars@) <= isize::MAX,
            chars@.len() <= spec_utf8_len_seq(chars@),
            i <= chars@.len(),
            byte == spec_utf8_len_seq(chars@.take(i as int)),
            1 <= cur_line <= i + 1,
            1 <= cur_col <= 2 * i + 1,
            walk_offset(chars@, i as int, byte as int, line as int, col as int, cur_line as int, cur_col as int)
                == spec_offset_of_line_col(text@, line as int, col as int),
        decreases chars.len() - i,
    {
        if cur_line == line && cur_col == col {
            return Some(byte);
        }
        let ch = chars[i];
        proof {
            lemma_utf8_len_prefix(chars@, i as int);
        }
        if ch == '\n' {
            if cur_line == line {
                return Some(byte);
            }
            cur_line = cur_line + 1;
            cur_col = 1;
        } else {
            cur_col = cur_col + utf16_len(ch);
        }
        byte = byte + utf8_len(ch);
        i = i + 1;
    }
    if cur_line == line {
        return Some(byte);
    }
    None
}

/// The position reached after the first `i` characters of `s`, starting
/// at 1:1 (a newline starts the next line, any other character advances
/// the column by its UTF-16 length).
pub open spec fn position_after(s: Seq<char>, i: int) -> (int, int)
    decreases i,
{
    if i <= 0 {
        (1, 1)
    } else {
        let p = position_after(s, i - 1);
        if s[i - 1] == '\n' {
            (p.0 + 1, 1)
        } else {
            (p.0, p.1 + spec_utf16_len(s[i - 1]))
        }
    }
}

/// Positions are at least 1:1, lines never go back, and each character
/// moves the position strictly forward; past a newline the line grows.
proof fn lemma_position_order(s: Seq<char>, i: int, j: int)
    requires
        0 <= i <= j <= s.len(),
    ensures
        position_after(s, j).0 >= 1,
        position_after(s, j).1 >= 1,
        position_after(s, i).0 <= position_after(s, j).0,
        i < j ==> (position_after(s, i).0 < position_after(s, j).0 || position_after(s, i).1
            < position_after(s, j).1),
        i < j && s[i] == '\n' ==> position_after(s, i).0 < position_after(s, j).0,
    decreases j,
{
    if j > 0 {
        lemma_position_order(s, 0, j - 1);
    }
    if i < j {
        lemma_position_order(s, i, j - 1);
    }
}

proof fn lemma_walk_line_col_reaches(s: Seq<char>, i: int, k: int)
    requires
        0 <= i <= k <= s.len(),
    ensures
        walk_line_col(
            s,
            i,
            spec_utf8_len_seq(s.take(i)) as int,
            spec_utf8_len_seq(s.take(k)) as int,
            position_after(s, i).0,
            position_after(s, i).1,
        ) == position_after(s, k),
    decreases k - i,
{
    if i < k {
        lemma_utf8_len_monotone(s, i, k);
        lemma_utf8_len_prefix(s, i);
        lemma_walk_line_col_reaches(s, i + 1, k);
    }
}

proof fn lemma_walk_offset_reaches(s: Seq<char>, i: int, k: int)
    requires
        0 <= i <= k <= s.len(),
    ensures
        walk_offset(
            s,
            i,
            spec_utf8_len_seq(s.take(i)) as int,
            position_after(s, k).0,
            position_after(s, k).1,
            position_after(s, i).0,
            position_after(s, i).1,
        ) == Some(spec_utf8_len_seq(s.take(k)) as int),
    decreases k - i,
{
    if i < k {
        lemma_position_order(s, i, k);
        lemma_utf8_len_prefix(s, i);
        lemma_walk_offset_reaches(s, i + 1, k);
    }
}

/// At every character boundary of a text, turning the byte offset into a
/// line and column and back gives the same byte offset.
pub proof fn lemma_line_col_round_trip(s: Seq<char>, k: int)
    requires
        0 <= k <= s.len(),
    ensures
        ({
            let offset = spec_utf8_len_seq(s.take(k)) as int;
            let lc = spec_line_col_of(s, offset);
            spec_offset_of_line_col(s, lc.0, lc.1) == Some(offset)
        }),
{
    assert(s.take(0) =~= Seq::<char>::empty());
    lemma_walk_line_col_reaches(s, 0, k);
    lemma_position_order(s, 0, k);
    lemma_walk_offset_reaches(s, 0, k);
}

/// The state of a checked declaration.
#[derive(Debug, Clone, Copy, PartialEq, Eq, Structural)]
pub enum DeclStatus {
    /// Checked with no hole left.
    Checked,
    /// Checked, with `sorry` holes left to fill.
    Open,
    /// Rejected by the kernel.
    Failed,
}

pub open spec fn spec_status_str(status: DeclStatus) -> &'static str {
    match status {
        DeclStatus::Checked => "checked",
        DeclStatus::Open => "open",
        DeclStatus::Failed => "failed",
    }
}

/// The stable text of a declaration state (what the wire carries).
pub fn status_str(status: DeclStatus) -> (r: &'static str)
    ensures
        r == spec_status_str(status),
{
    match status {
        DeclStatus::Checked => "checked",
        DeclStatus::Open => "open",
        DeclStatus::Failed => "failed",
    }
}

/// The offsets of a span.
pub fn span_offsets(span: Span) -> (r: (usize, usize))
    ensures
        r == (span.start.offset, span.end.offset),
{
    (span.start.offset, span.end.offset)
}

} // verus!
