//! Recursive-descent parser: tokens to commands and expressions.
use crate::ast::{
    clone_expr, Binder, BinderKind, CasesArm, Command, CtorDecl, Expr, FolFile, HaveValue,
    IotaRule, MatchArm, NotationAssoc, NotationDecl, OpenFilter, Pattern, RecDecl, SortKind,
    Tactic,
};
use crate::diagnostic::{Diagnostic, DiagnosticKind, Result};
use crate::module_name::{spec_module_name, ModuleName, ModuleNameError};
use crate::span::{Pos, Span};
use crate::text::{
    all_ascii_digits, chars_of, concat2, concat3, concat4, concat5, contains_char,
    ends_with_char, parse_u16, parse_u64, str_eq, string_from_chars, is_whitespace,
};
use crate::token::{
    clone_kind, clone_token, contains_string, is_ascii_word_symbol, is_notation_command,
    add_new, lex_ok, lex_tokens, lexed, tok_views, lexer_reserved_symbol_char, nonempty_texts, scan_lines, scan_notation_symbols, string_views,
    tokenize_with_symbols, Token,
    TokenKind,
};
use vstd::prelude::*;
use vstd::slice::slice_subrange;

verus! {

/// Where the built-in `+` sits on the precedence ladder.
pub const PLUS_PRECEDENCE: u16 = 65;

/// The smallest and largest precedence a notation command may write.
pub const MIN_NOTATION_PRECEDENCE: u16 = 1;

pub const MAX_NOTATION_PRECEDENCE: u16 = 1000;

/// A declared notation (infix family, unary, nullary or binder).
pub struct NotationEntry {
    pub symbol: String,
    /// `None` for nullary and binder notations.
    pub precedence: Option<u16>,
    pub assoc: NotationAssoc,
    pub target: String,
}

/// A `scoped` declaration, waiting for `open scoped <scope>`.
pub struct ScopedNotation {
    pub scope: String,
    pub entry: NotationEntry,
}

/// A binary operator on the ladder: the built-in `+` or a declared notation.
pub struct BinaryOp {
    pub precedence: u16,
    pub assoc: NotationAssoc,
    pub symbol: String,
    pub builtin_plus: bool,
}

/// An open `namespace`: the name as written, the accumulated prefix, and
/// the span of the line that opened it.
pub struct OpenNamespace {
    pub written: String,
    pub full: String,
    pub span: Span,
}

/// A `(a b c : T)` group of binders sharing one type.
struct BinderGroup {
    names: Vec<String>,
    ty: Expr,
    style: BinderKind,
    span: Span,
}

pub struct Parser {
    tokens: Vec<Token>,
    cursor: usize,
    /// > 0 while a `match`/`cases` scrutinee is parsed: `with` then ends the
    /// application instead of becoming an argument.
    scrutinee_depth: usize,
    /// > 0 while a tactic is parsed: a tactic keyword on a new line ends the
    /// current expression.
    by_depth: usize,
    /// Set by `@`, taken by the application spine that follows.
    saw_at: bool,
    /// The active notations, in declaration order; several entries for one
    /// symbol are overloads of the same shape.
    notations: Vec<NotationEntry>,
    scoped_pending: Vec<ScopedNotation>,
    opened_scopes: Vec<String>,
    /// Symbols that come from outside this file (built-in or imported): they
    /// cannot be declared again.
    inherited_symbols: Vec<String>,
    /// The unclosed `namespace`s, outermost first.
    namespaces: Vec<OpenNamespace>,
}

// ---------------------------------------------------------------------------
// Keyword sets.
// ---------------------------------------------------------------------------

pub open spec fn spec_expr_keyword(w: Seq<char>) -> bool {
    w == "let"@ || w == "match"@
}

/// Term keywords that must never become an application argument.
pub fn is_expr_keyword(name: &str) -> (r: bool)
    ensures
        r == spec_expr_keyword(name@),
{
    str_eq(name, "let") || str_eq(name, "match")
}

pub open spec fn spec_tactic_keyword(w: Seq<char>) -> bool {
    w == "intro"@ || w == "exact"@ || w == "apply"@ || w == "assumption"@ || w == "rfl"@ || w
        == "match"@ || w == "constructor"@ || w == "left"@ || w == "right"@ || w == "use"@ || w
        == "exfalso"@ || w == "cases"@ || w == "have"@ || w == "sorry"@
}

/// The tactic keywords that a `by` block accepts.
pub fn is_tactic_keyword(name: &str) -> (r: bool)
    ensures
        r == spec_tactic_keyword(name@),
{
    str_eq(name, "intro") || str_eq(name, "exact") || str_eq(name, "apply") || str_eq(
        name,
        "assumption",
    ) || str_eq(name, "rfl") || str_eq(name, "match") || str_eq(name, "constructor") || str_eq(
        name,
        "left",
    ) || str_eq(name, "right") || str_eq(name, "use") || str_eq(name, "exfalso") || str_eq(
        name,
        "cases",
    ) || str_eq(name, "have") || str_eq(name, "sorry")
}

pub open spec fn spec_reserved_command(w: Seq<char>) -> bool {
    crate::token::spec_notation_command(w) || w == "scoped"@ || w == "import"@ || w == "def"@
        || w == "abbrev"@ || w == "theorem"@ || w == "example"@ || w == "axiom"@ || w
        == "inductive"@ || w == "ctor"@ || w == "rec"@ || w == "iota"@ || w == "end"@ || w
        == "namespace"@ || w == "open"@ || w == "export"@ || w == "#check"@ || w == "#reduce"@
        || w == "#print"@
}

/// Command keywords (they cannot appear inside an expression).
pub fn is_reserved_command(name: &str) -> (r: bool)
    ensures
        r == spec_reserved_command(name@),
{
    is_notation_command(name) || str_eq(name, "scoped") || str_eq(name, "import") || str_eq(
        name,
        "def",
    ) || str_eq(name, "abbrev") || str_eq(name, "theorem") || str_eq(name, "example") || str_eq(
        name,
        "axiom",
    ) || str_eq(name, "inductive") || str_eq(name, "ctor") || str_eq(name, "rec") || str_eq(
        name,
        "iota",
    ) || str_eq(name, "end") || str_eq(name, "namespace") || str_eq(name, "open") || str_eq(
        name,
        "export",
    ) || str_eq(name, "#check") || str_eq(name, "#reduce") || str_eq(name, "#print")
}

pub open spec fn spec_namespace_name_keyword(w: Seq<char>) -> bool {
    spec_reserved_command(w) || spec_expr_keyword(w)
}

/// Words that cannot name a namespace (after `namespace`/`end`/`open`).
pub fn is_namespace_name_keyword(name: &str) -> (r: bool)
    ensures
        r == spec_namespace_name_keyword(name@),
{
    is_reserved_command(name) || is_expr_keyword(name)
}

pub open spec fn spec_open_in_body(c: Command) -> bool {
    c is Def || c is Theorem || c is Axiom || c is Example || c is InductiveBlock || c is Check
        || c is Reduce || c is Print || c is OpenIn
}

/// The commands that may follow `open … in`: declarations, `#check`,
/// `#reduce`, `#print` (and a nested `open … in`).
pub fn is_open_in_body(command: &Command) -> (r: bool)
    ensures
        r == spec_open_in_body(*command),
{
    match command {
        Command::Def { .. } | Command::Theorem { .. } | Command::Axiom { .. } | Command::Example {
            ..
        } | Command::InductiveBlock { .. } | Command::Check { .. } | Command::Reduce { .. }
        | Command::Print { .. } | Command::OpenIn { .. } => true,
        _ => false,
    }
}

// ---------------------------------------------------------------------------
// Built-in notations.
// ---------------------------------------------------------------------------

/// The built-in notations (symbol, shape, target): `∧` `∨` `↔` `¬` `=` `≠`.
pub open spec fn builtin_table() -> Seq<(Seq<char>, NotationAssoc, u16, Seq<char>)> {
    seq![
        ("∧"@, NotationAssoc::Infixr, 35u16, "And"@),
        ("∨"@, NotationAssoc::Infixr, 30u16, "Or"@),
        ("↔"@, NotationAssoc::Infix, 20u16, "Iff"@),
        ("¬"@, NotationAssoc::Prefix, 40u16, "Not"@),
        ("="@, NotationAssoc::Infix, 50u16, "Eq"@),
        ("≠"@, NotationAssoc::Infix, 50u16, "Ne"@),
    ]
}

fn builtin_entry(k: usize) -> (r: (&'static str, NotationAssoc, u16, &'static str))
    requires
        k < 6,
    ensures
        (r.0@, r.1, r.2, r.3@) == builtin_table()[k as int],
{
    proof {
        reveal_strlit("∧");
        reveal_strlit("∨");
        reveal_strlit("↔");
        reveal_strlit("¬");
        reveal_strlit("=");
        reveal_strlit("≠");
        reveal_strlit("And");
        reveal_strlit("Or");
        reveal_strlit("Iff");
        reveal_strlit("Not");
        reveal_strlit("Eq");
        reveal_strlit("Ne");
    }
    if k == 0 {
        ("∧", NotationAssoc::Infixr, 35, "And")
    } else if k == 1 {
        ("∨", NotationAssoc::Infixr, 30, "Or")
    } else if k == 2 {
        ("↔", NotationAssoc::Infix, 20, "Iff")
    } else if k == 3 {
        ("¬", NotationAssoc::Prefix, 40, "Not")
    } else if k == 4 {
        ("=", NotationAssoc::Infix, 50, "Eq")
    } else {
        ("≠", NotationAssoc::Infix, 50, "Ne")
    }
}

pub open spec fn spec_builtin_target(symbol: Seq<char>) -> Option<Seq<char>> {
    if symbol == builtin_table()[0].0 {
        Some(builtin_table()[0].3)
    } else if symbol == builtin_table()[1].0 {
        Some(builtin_table()[1].3)
    } else if symbol == builtin_table()[2].0 {
        Some(builtin_table()[2].3)
    } else if symbol == builtin_table()[3].0 {
        Some(builtin_table()[3].3)
    } else if symbol == builtin_table()[4].0 {
        Some(builtin_table()[4].3)
    } else if symbol == builtin_table()[5].0 {
        Some(builtin_table()[5].3)
    } else {
        None
    }
}

/// The target a built-in notation symbol expands to (`=` ↦ `Eq`).
pub fn builtin_notation_target(symbol: &str) -> (r: Option<&'static str>)
    ensures
        r matches Some(t) ==> spec_builtin_target(symbol@) == Some(t@),
        r is None ==> spec_builtin_target(symbol@) is None,
{
    let mut k: usize = 0;
    while k < 6
        invariant
            k <= 6,
            forall|m: int| 0 <= m < k ==> symbol@ != #[trigger] builtin_table()[m].0,
        decreases 6 - k,
    {
        let e = builtin_entry(k);
        if str_eq(symbol, e.0) {
            return Some(e.3);
        }
        k = k + 1;
    }
    None
}

/// Whether a symbol is one of the built-in notations.
pub open spec fn spec_is_builtin(symbol: Seq<char>) -> bool {
    spec_builtin_target(symbol) is Some
}

fn is_builtin_symbol(symbol: &str) -> (r: bool)
    ensures
        r == spec_is_builtin(symbol@),
{
    builtin_notation_target(symbol).is_some()
}

/// The built-in symbols the lexer must know (all but `=`, which it lexes
/// natively, so that `=>` stays one token).
pub fn lexer_builtin_symbols() -> (r: Vec<String>)
    ensures
        r@.len() == 5,
        forall|k: int| 0 <= k < 5 ==> #[trigger] r@[k]@ == builtin_table()[if k < 4 { k } else { k + 1 }].0,
{
    let mut out: Vec<String> = Vec::new();
    let mut k: usize = 0;
    while k < 6
        invariant
            k <= 6,
            out@.len() == (if k <= 4 { k as int } else { k - 1 }),
            forall|m: int| 0 <= m < out@.len() ==> #[trigger] out@[m]@ == builtin_table()[if m < 4 { m } else { m + 1 }].0,
        decreases 6 - k,
    {
        if k != 4 {
            let e = builtin_entry(k);
            out.push(String::from_str(e.0));
        }
        k = k + 1;
    }
    out
}

/// `prefix.name` (or just `name` outside any namespace).
pub open spec fn spec_join_ns(prefix: Option<Seq<char>>, name: Seq<char>) -> Seq<char> {
    match prefix {
        Some(p) => p + seq!['.'] + name,
        None => name,
    }
}

pub fn join_ns(prefix: Option<&str>, name: &str) -> (r: String)
    ensures
        r@ == spec_join_ns(
            match prefix {
                Some(p) => Some(p@),
                None => None,
            },
            name@,
        ),
{
    proof {
        reveal_strlit(".");
    }
    match prefix {
        Some(p) => concat3(p, ".", name),
        None => String::from_str(name),
    }
}

// ---------------------------------------------------------------------------
// Declaration sugar.
// ---------------------------------------------------------------------------

/// Declaration binders as sugar: the type becomes a `Forall` telescope and
/// the value a `Lambda` telescope; no binders leaves both as they are.
pub fn wrap_decl_binders(binders: Vec<Binder>, ty: Expr, val: Expr) -> (r: (Expr, Expr))
    ensures
        binders@.len() == 0 ==> r == (ty, val),
        binders@.len() > 0 ==> (r.0 matches Expr::Forall { binders: b, body, span } && b == binders
            && *body == ty && span.start == binders@[0].span.start && span.end == ty.spec_span().end),
        binders@.len() > 0 ==> (r.1 matches Expr::Lambda { body, span, .. } && *body == val
            && span.start == binders@[0].span.start && span.end == val.spec_span().end),
{
    if binders.len() == 0 {
        return (ty, val);
    }
    let start = binders[0].span.start;
    let copy = clone_binders_of(&binders);
    let ty = wrap_type_binders(binders, ty);
    let val_span = Span::new(start, val.span().end);
    let val = Expr::Lambda { binders: copy, body: Box::new(val), span: val_span };
    (ty, val)
}

fn clone_binders_of(v: &Vec<Binder>) -> (r: Vec<Binder>)
    ensures
        crate::draft::binders_alike(r@, v@),
{
    crate::ast::clone_binders(v)
}

/// The type-side telescope only (used by `axiom`, which has no value).
pub fn wrap_type_binders(binders: Vec<Binder>, ty: Expr) -> (r: Expr)
    ensures
        binders@.len() == 0 ==> r == ty,
        binders@.len() > 0 ==> (r matches Expr::Forall { binders: b, body, span } && b == binders
            && *body == ty && span.start == binders@[0].span.start && span.end == ty.spec_span().end),
{
    if binders.len() == 0 {
        return ty;
    }
    let span = Span::new(binders[0].span.start, ty.span().end);
    Expr::Forall { binders, body: Box::new(ty), span }
}

// ---------------------------------------------------------------------------
// Messages.
// ---------------------------------------------------------------------------

/// The debug spelling of a token kind (as `{:?}` prints it).
pub open spec fn spec_kind_debug(k: TokenKind) -> Seq<char> {
    match k {
        TokenKind::Ident(s) => "Ident(\""@ + s@ + "\")"@,
        TokenKind::Num(s) => "Num(\""@ + s@ + "\")"@,
        TokenKind::Str(s) => "Str(\""@ + s@ + "\")"@,
        TokenKind::Sym(s) => "Sym(\""@ + s@ + "\")"@,
        TokenKind::Forall => "Forall"@,
        TokenKind::Arrow => "Arrow"@,
        TokenKind::FatArrow => "FatArrow"@,
        TokenKind::Colon => "Colon"@,
        TokenKind::ColonEq => "ColonEq"@,
        TokenKind::LParen => "LParen"@,
        TokenKind::RParen => "RParen"@,
        TokenKind::LBrace => "LBrace"@,
        TokenKind::RBrace => "RBrace"@,
        TokenKind::Comma => "Comma"@,
        TokenKind::Semicolon => "Semicolon"@,
        TokenKind::Pipe => "Pipe"@,
        TokenKind::At => "At"@,
        TokenKind::Plus => "Plus"@,
        TokenKind::Hole => "Hole"@,
        TokenKind::Langle => "Langle"@,
        TokenKind::Rangle => "Rangle"@,
        TokenKind::Eof => "Eof"@,
    }
}

pub(crate) fn kind_debug(k: &TokenKind) -> (r: String)
    ensures
        r@ == spec_kind_debug(*k),
{
    match k {
        TokenKind::Ident(s) => concat3("Ident(\"", s.as_str(), "\")"),
        TokenKind::Num(s) => concat3("Num(\"", s.as_str(), "\")"),
        TokenKind::Str(s) => concat3("Str(\"", s.as_str(), "\")"),
        TokenKind::Sym(s) => concat3("Sym(\"", s.as_str(), "\")"),
        TokenKind::Forall => String::from_str("Forall"),
        TokenKind::Arrow => String::from_str("Arrow"),
        TokenKind::FatArrow => String::from_str("FatArrow"),
        TokenKind::Colon => String::from_str("Colon"),
        TokenKind::ColonEq => String::from_str("ColonEq"),
        TokenKind::LParen => String::from_str("LParen"),
        TokenKind::RParen => String::from_str("RParen"),
        TokenKind::LBrace => String::from_str("LBrace"),
        TokenKind::RBrace => String::from_str("RBrace"),
        TokenKind::Comma => String::from_str("Comma"),
        TokenKind::Semicolon => String::from_str("Semicolon"),
        TokenKind::Pipe => String::from_str("Pipe"),
        TokenKind::At => String::from_str("At"),
        TokenKind::Plus => String::from_str("Plus"),
        TokenKind::Hole => String::from_str("Hole"),
        TokenKind::Langle => String::from_str("Langle"),
        TokenKind::Rangle => String::from_str("Rangle"),
        TokenKind::Eof => String::from_str("Eof"),
    }
}

fn shape_error(detail: String, span: Span) -> (r: Diagnostic)
    ensures
        r.kind is NotationShape,
        r.span == span,
{
    let message = detail.clone();
    Diagnostic::new(DiagnosticKind::NotationShape { detail }, span, message)
}

fn ns_shape_error(detail: String, span: Span) -> (r: Diagnostic)
    ensures
        r.kind is NamespaceShape,
        r.span == span,
{
    let message = detail.clone();
    Diagnostic::new(DiagnosticKind::NamespaceShape { detail }, span, message)
}

fn unknown_symbol_error(symbol: &str, span: Span) -> (r: Diagnostic)
    ensures
        r.kind is NotationUnknownSymbol,
        r.span == span,
{
    Diagnostic::new(
        DiagnosticKind::NotationUnknownSymbol { symbol: String::from_str(symbol) },
        span,
        concat3(
            "符号 `",
            symbol,
            "` 在本文件里还没有声明过记法；先用 infix/notation 命令声明它，或改用点名写法",
        ),
    )
}

/// A teaching diagnostic: the message is all (no token debug text).
fn error_at(span: Span, msg: String) -> (r: Diagnostic)
    ensures
        r.kind is UnexpectedToken,
        r.span == span,
{
    Diagnostic::new(
        DiagnosticKind::UnexpectedToken {
            found: String::from_str("a notation symbol"),
            expected: msg.clone(),
        },
        span,
        msg,
    )
}

fn level_too_large_error(text: &str, span: Span) -> (r: Diagnostic)
    ensures
        r.kind is UnexpectedToken,
        r.span == span,
{
    Diagnostic::new(
        DiagnosticKind::UnexpectedToken {
            found: String::from_str(text),
            expected: String::from_str("a universe level"),
        },
        span,
        String::from_str("universe level is too large"),
    )
}

fn unexpected(found: String, expected: &str, span: Span, message: String) -> (r: Diagnostic)
    ensures
        r.kind is UnexpectedToken,
        r.kind matches DiagnosticKind::UnexpectedToken { found: f, expected: e } && f == found && e@
            == expected@,
        r.span == span,
        r.message == message,
{
    Diagnostic::new(
        DiagnosticKind::UnexpectedToken { found, expected: String::from_str(expected) },
        span,
        message,
    )
}

/// `s` without its trailing `.` characters.
pub(crate) fn trim_trailing_dots(s: &str) -> (r: String)
    ensures
        r@.len() <= s@.len(),
        s@.take(r@.len() as int) == r@,
        forall|i: int| r@.len() <= i < s@.len() ==> s@[i] == '.',
        r@.len() == 0 || r@.last() != '.',
{
    let v = chars_of(s);
    let mut n: usize = v.len();
    while n > 0 && v[n - 1] == '.'
        invariant
            n <= v@.len(),
            v@ == s@,
            forall|i: int| n <= i < v@.len() ==> v@[i] == '.',
        decreases n,
    {
        n = n - 1;
    }
    string_from_chars(slice_subrange(v.as_slice(), 0, n))
}

/// `s` is `t` with white space around it: `t = s[a..b]`, everything
/// outside is white space, and `t` neither starts nor ends with it.
pub open spec fn trimmed(s: Seq<char>, t: Seq<char>) -> bool {
    exists|a: int, b: int|
        0 <= a <= b <= s.len() && t == s.subrange(a, b) && (forall|i: int| 0 <= i < a ==> crate::text::spec_is_whitespace(
            #[trigger] s[i],
        )) && (forall|i: int| b <= i < s.len() ==> crate::text::spec_is_whitespace(#[trigger] s[i])) && (a < b
            ==> !crate::text::spec_is_whitespace(s[a]) && !crate::text::spec_is_whitespace(s[b - 1]))
}

proof fn lemma_trimmed_unique(s: Seq<char>, t1: Seq<char>, t2: Seq<char>)
    requires
        trimmed(s, t1),
        trimmed(s, t2),
    ensures
        t1 == t2,
{
    let (a1, b1) = choose|a: int, b: int|
        0 <= a <= b <= s.len() && t1 == s.subrange(a, b) && (forall|i: int| 0 <= i < a ==> crate::text::spec_is_whitespace(
            #[trigger] s[i],
        )) && (forall|i: int| b <= i < s.len() ==> crate::text::spec_is_whitespace(#[trigger] s[i])) && (a < b
            ==> !crate::text::spec_is_whitespace(s[a]) && !crate::text::spec_is_whitespace(s[b - 1]));
    let (a2, b2) = choose|a: int, b: int|
        0 <= a <= b <= s.len() && t2 == s.subrange(a, b) && (forall|i: int| 0 <= i < a ==> crate::text::spec_is_whitespace(
            #[trigger] s[i],
        )) && (forall|i: int| b <= i < s.len() ==> crate::text::spec_is_whitespace(#[trigger] s[i])) && (a < b
            ==> !crate::text::spec_is_whitespace(s[a]) && !crate::text::spec_is_whitespace(s[b - 1]));
    if a1 < b1 && a2 < b2 {
        assert(a1 == a2) by {
            if a1 < a2 {
                assert(crate::text::spec_is_whitespace(s[a1]));
            }
            if a2 < a1 {
                assert(crate::text::spec_is_whitespace(s[a2]));
            }
        }
        assert(b1 == b2) by {
            if b1 < b2 {
                assert(crate::text::spec_is_whitespace(s[b2 - 1]));
            }
            if b2 < b1 {
                assert(crate::text::spec_is_whitespace(s[b1 - 1]));
            }
        }
    } else if a1 < b1 {
        if a1 < a2 {
            assert(crate::text::spec_is_whitespace(s[a1]));
        } else {
            assert(crate::text::spec_is_whitespace(s[a1]));
        }
    } else if a2 < b2 {
        if a2 < a1 {
            assert(crate::text::spec_is_whitespace(s[a2]));
        } else {
            assert(crate::text::spec_is_whitespace(s[a2]));
        }
    } else {
        assert(t1 =~= t2);
    }
}

proof fn lemma_symbol_of(t: Token, s: Seq<char>)
    requires
        t.kind matches TokenKind::Str(raw) && trimmed(raw@, s),
    ensures
        symbol_of(t) == s,
{
    let raw = t.kind->Str_0;
    let c = choose|x: Seq<char>| trimmed(raw@, x);
    assert(trimmed(raw@, c));
    lemma_trimmed_unique(raw@, c, s);
}

/// The trimmed text of `raw` is a usable notation symbol: not empty, not
/// a plain ASCII word, and free of what the lexer reads first.
pub open spec fn symbol_text_ok(raw: Seq<char>) -> bool {
    exists|t: Seq<char>|
        trimmed(raw, t) && t.len() > 0 && !crate::token::spec_ascii_word(t)
            && !crate::token::spec_reserved_in_symbol(t)
}

/// `s` without leading and trailing white space (as `str::trim`).
fn trim(s: &str) -> (r: String)
    ensures
        trimmed(s@, r@),
{
    let v = chars_of(s);
    let mut a: usize = 0;
    let mut b: usize = v.len();
    while a < b && is_whitespace(v[a])
        invariant
            a <= b <= v@.len(),
            b == v@.len(),
            forall|i: int| 0 <= i < a ==> crate::text::spec_is_whitespace(#[trigger] v@[i]),
        decreases b - a,
    {
        a = a + 1;
    }
    while a < b && is_whitespace(v[b - 1])
        invariant
            a <= b <= v@.len(),
            forall|i: int| 0 <= i < a ==> crate::text::spec_is_whitespace(#[trigger] v@[i]),
            forall|i: int| b <= i < v@.len() ==> crate::text::spec_is_whitespace(#[trigger] v@[i]),
            a < b ==> !crate::text::spec_is_whitespace(v@[a as int]),
        decreases b - a,
    {
        b = b - 1;
    }
    let r = string_from_chars(slice_subrange(v.as_slice(), a, b));
    proof {
        assert(v@ == s@);
        assert(trimmed(s@, r@)) by {
            assert(r@ == s@.subrange(a as int, b as int));
        }
    }
    r
}

fn is_empty_str(s: &str) -> (r: bool)
    ensures
        r == (s@.len() == 0),
{
    s.unicode_len() == 0
}

// ---------------------------------------------------------------------------
// The parser state.
// ---------------------------------------------------------------------------

/// A precedence that the ladder can still step past (`p + 1` fits).
pub open spec fn prec_ok(p: Option<u16>) -> bool {
    match p {
        Some(q) => q < u16::MAX,
        None => true,
    }
}

/// A precedence that a notation command may write: none, or one in
/// `MIN_NOTATION_PRECEDENCE..=MAX_NOTATION_PRECEDENCE`.
pub open spec fn prec_in_range(p: Option<u16>) -> bool {
    match p {
        Some(q) => MIN_NOTATION_PRECEDENCE <= q <= MAX_NOTATION_PRECEDENCE,
        None => true,
    }
}

/// A notation command's precedence is in the written range (so the ladder
/// can step past it).
pub open spec fn notation_prec_ok(c: Command) -> bool {
    c matches Command::Notation { precedence, .. } ==> prec_in_range(precedence) && prec_ok(precedence)
}

/// Every notation command of `cmds` has a usable precedence.
pub open spec fn notations_prec_ok(cmds: Seq<Command>) -> bool {
    forall|k: int| 0 <= k < cmds.len() ==> notation_prec_ok(#[trigger] cmds[k])
}

pub open spec fn entry_ok(e: NotationEntry) -> bool {
    prec_ok(e.precedence)
}

impl Parser {
    /// The invariant of a parser between two calls.
    pub closed spec fn wf(&self) -> bool {
        &&& 0 < self.tokens@.len() <= usize::MAX
        &&& self.tokens@.last().kind is Eof
        &&& self.cursor < self.tokens@.len()
        &&& self.by_depth <= self.cursor
        &&& self.scrutinee_depth <= self.cursor
        &&& forall|k: int| 0 <= k < self.notations@.len() ==> entry_ok(#[trigger] self.notations@[k])
        &&& forall|k: int|
            0 <= k < self.scoped_pending@.len() ==> entry_ok(#[trigger] self.scoped_pending@[k].entry)
    }

    /// The token at the cursor.
    pub closed spec fn cur(&self) -> Token {
        self.tokens@[self.cursor as int]
    }

    pub closed spec fn spec_cursor(&self) -> nat {
        self.cursor as nat
    }

    pub closed spec fn spec_tokens(&self) -> Seq<Token> {
        self.tokens@
    }

    /// The unclosed namespaces, by name as written.
    pub closed spec fn open_namespaces(&self) -> nat {
        self.namespaces@.len()
    }

    /// `new` is `old` after a parse step: still well-formed, same tokens, the
    /// cursor did not move back, the nesting counters are restored.
    pub closed spec fn step(old: &Parser, new: &Parser) -> bool {
        &&& new.wf()
        &&& new.tokens == old.tokens
        &&& new.cursor >= old.cursor
        &&& new.by_depth == old.by_depth
        &&& new.scrutinee_depth == old.scrutinee_depth
    }

    /// A step that leaves the notation tables and namespaces alone (every
    /// expression-level step).
    pub closed spec fn expr_step(old: &Parser, new: &Parser) -> bool {
        &&& Self::step(old, new)
        &&& new.notations == old.notations
        &&& new.scoped_pending == old.scoped_pending
        &&& new.opened_scopes == old.opened_scopes
        &&& new.inherited_symbols == old.inherited_symbols
        &&& new.namespaces == old.namespaces
    }

    pub closed spec fn remaining(&self) -> int {
        self.tokens@.len() - self.cursor
    }

    /// A parser over `tokens` with no inherited notations.
    pub fn new(tokens: Vec<Token>) -> (r: Self)
        requires
            lexed(tokens@),
        ensures
            r.wf(),
            r.spec_tokens() == tokens@,
            r.spec_cursor() == 0,
            r.open_namespaces() == 0,
    {
        let none: Vec<NotationDecl> = Vec::new();
        Self::with_inherited(tokens, none.as_slice())
    }

    /// A parser whose notation table starts with the built-in notations and
    /// the notations inherited from imported modules (`scoped` ones wait for
    /// `open scoped`).
    pub fn with_inherited(tokens: Vec<Token>, inherited: &[NotationDecl]) -> (r: Self)
        requires
            lexed(tokens@),
            forall|k: int|
                0 <= k < inherited@.len() ==> prec_ok((#[trigger] inherited@[k]).precedence),
        ensures
            r.wf(),
            r.spec_tokens() == tokens@,
            r.spec_cursor() == 0,
            r.open_namespaces() == 0,
    {
        let mut notations: Vec<NotationEntry> = Vec::new();
        let mut scoped_pending: Vec<ScopedNotation> = Vec::new();
        let mut inherited_symbols: Vec<String> = Vec::new();
        let mut k: usize = 0;
        while k < 6
            invariant
                k <= 6,
                forall|m: int| 0 <= m < notations@.len() ==> entry_ok(#[trigger] notations@[m]),
            decreases 6 - k,
        {
            let e = builtin_entry(k);
            inherited_symbols.push(String::from_str(e.0));
            notations.push(
                NotationEntry {
                    symbol: String::from_str(e.0),
                    precedence: Some(e.2),
                    assoc: e.1,
                    target: String::from_str(e.3),
                },
            );
            k = k + 1;
        }
        let mut k: usize = 0;
        while k < inherited.len()
            invariant
                k <= inherited@.len(),
                forall|q: int|
                    0 <= q < inherited@.len() ==> prec_ok((#[trigger] inherited@[q]).precedence),
                forall|m: int| 0 <= m < notations@.len() ==> entry_ok(#[trigger] notations@[m]),
                forall|m: int|
                    0 <= m < scoped_pending@.len() ==> entry_ok(#[trigger] scoped_pending@[m].entry),
            decreases inherited.len() - k,
        {
            let decl = &inherited[k];
            let entry = NotationEntry {
                symbol: decl.symbol.clone(),
                precedence: decl.precedence,
                assoc: decl.assoc,
                target: decl.target.clone(),
            };
            inherited_symbols.push(decl.symbol.clone());
            match &decl.scope {
                None => notations.push(entry),
                Some(scope) => scoped_pending.push(ScopedNotation { scope: scope.clone(), entry }),
            }
            k = k + 1;
        }
        proof {
            assert(tokens@.len() == tokens.len());
        }
        Parser {
            tokens,
            cursor: 0,
            scrutinee_depth: 0,
            by_depth: 0,
            saw_at: false,
            notations,
            scoped_pending,
            opened_scopes: Vec::new(),
            inherited_symbols,
            namespaces: Vec::new(),
        }
    }

    // -----------------------------------------------------------------------
    // Token access.
    // -----------------------------------------------------------------------

    fn peek(&self) -> (r: &Token)
        requires
            self.wf(),
        ensures
            *r == self.cur(),
    {
        &self.tokens[self.cursor]
    }

    fn peek_span(&self) -> (r: Span)
        requires
            self.wf(),
        ensures
            r == self.cur().span,
    {
        self.tokens[self.cursor].span
    }

    /// Consume the current token (the cursor stays on `Eof`).
    fn bump(&mut self) -> (t: Token)
        requires
            old(self).wf(),
        ensures
            Self::expr_step(old(self), final(self)),
            t == old(self).cur(),
            final(self).saw_at == old(self).saw_at,
            !(t.kind is Eof) ==> final(self).cursor == old(self).cursor + 1,
            t.kind is Eof ==> final(self).cursor == old(self).cursor,
    {
        let t = clone_token(&self.tokens[self.cursor]);
        let n = self.tokens.len();
        if !matches!(t.kind, TokenKind::Eof) {
            assert(self.cursor + 1 < n);
            self.cursor = self.cursor + 1;
        }
        t
    }

    /// The end of the last consumed token.
    fn prev_end(&self) -> (r: Pos)
        requires
            self.wf(),
            self.cursor > 0,
        ensures
            r == self.tokens@[self.cursor - 1].span.end,
    {
        self.tokens[self.cursor - 1].span.end
    }

    fn at_eof(&self) -> (r: bool)
        requires
            self.wf(),
        ensures
            r == (self.cur().kind is Eof),
    {
        matches!(self.tokens[self.cursor].kind, TokenKind::Eof)
    }

    /// Whether the current token is the identifier `w`.
    fn at_word(&self, w: &str) -> (r: bool)
        requires
            self.wf(),
        ensures
            r == (self.cur().kind matches TokenKind::Ident(s) && s@ == w@),
    {
        match &self.tokens[self.cursor].kind {
            TokenKind::Ident(s) => str_eq(s.as_str(), w),
            _ => false,
        }
    }

    fn at_colon(&self) -> (r: bool)
        requires
            self.wf(),
        ensures
            r == (self.cur().kind is Colon),
    {
        matches!(self.tokens[self.cursor].kind, TokenKind::Colon)
    }

    fn at_kind_fat_arrow(&self) -> (r: bool)
        requires
            self.wf(),
        ensures
            r == (self.cur().kind is FatArrow),
    {
        matches!(self.tokens[self.cursor].kind, TokenKind::FatArrow)
    }

    fn at_comma(&self) -> (r: bool)
        requires
            self.wf(),
        ensures
            r == (self.cur().kind is Comma),
    {
        matches!(self.tokens[self.cursor].kind, TokenKind::Comma)
    }

    fn kind_at(&self, i: usize) -> (r: Option<&TokenKind>)
        requires
            self.wf(),
        ensures
            i < self.tokens@.len() ==> r == Some(&self.tokens@[i as int].kind),
            i >= self.tokens@.len() ==> r is None,
    {
        if i < self.tokens.len() {
            Some(&self.tokens[i].kind)
        } else {
            None
        }
    }

    // -----------------------------------------------------------------------
    // Errors at the cursor.
    // -----------------------------------------------------------------------

    fn error_here(&self, msg: &str) -> (r: Diagnostic)
        requires
            self.wf(),
        ensures
            r.kind is UnexpectedToken,
            r.span == self.cur().span,
    {
        let tok = self.peek();
        let found = kind_debug(&tok.kind);
        let message = concat3(msg, ", found ", found.as_str());
        unexpected(found, msg, tok.span, message)
    }

    fn error_here_string(&self, msg: String) -> (r: Diagnostic)
        requires
            self.wf(),
        ensures
            r.kind is UnexpectedToken,
            r.span == self.cur().span,
    {
        self.error_here(msg.as_str())
    }

    fn error_at_current(&self, msg: String) -> (r: Diagnostic)
        requires
            self.wf(),
        ensures
            r.kind is UnexpectedToken,
            r.span == self.cur().span,
    {
        let tok = self.peek();
        unexpected(kind_debug(&tok.kind), "a command", tok.span, msg)
    }

    // -----------------------------------------------------------------------
    // The notation table.
    // -----------------------------------------------------------------------

    /// The index of the first active entry for `symbol` (the primary one:
    /// every overload has its shape).
    fn notation_index(&self, symbol: &str) -> (r: Option<usize>)
        ensures
            r matches Some(k) ==> k < self.notations@.len() && self.notations@[k as int].symbol@
                == symbol@ && forall|m: int| 0 <= m < k ==> #[trigger] self.notations@[m].symbol@ != symbol@,
            r is None ==> forall|m: int|
                0 <= m < self.notations@.len() ==> #[trigger] self.notations@[m].symbol@ != symbol@,
            r matches Some(k) ==> entry_index(self.notations@, symbol@, 0) == Some(k as int),
            r is None ==> entry_index(self.notations@, symbol@, 0) is None,
    {
        let mut k: usize = 0;
        while k < self.notations.len()
            invariant
                k <= self.notations@.len(),
                forall|m: int| 0 <= m < k ==> #[trigger] self.notations@[m].symbol@ != symbol@,
                entry_index(self.notations@, symbol@, k as int) == entry_index(self.notations@, symbol@, 0),
            decreases self.notations.len() - k,
        {
            if str_eq(self.notations[k].symbol.as_str(), symbol) {
                return Some(k);
            }
            k = k + 1;
        }
        None
    }

    /// The shape of the primary entry for `symbol`.
    fn notation_shape(&self, symbol: &str) -> (r: Option<(NotationAssoc, Option<u16>)>)
        requires
            self.wf(),
        ensures
            r matches Some((a, p)) ==> prec_ok(p),
            r == shape_of(self.notations@, symbol@),
    {
        match self.notation_index(symbol) {
            Some(k) => {
                proof {
                    assert(entry_ok(self.notations@[k as int]));
                }
                Some((self.notations[k].assoc, self.notations[k].precedence))
            },
            None => None,
        }
    }

    /// Every target declared for `symbol`, in declaration order.
    fn notation_targets(&self, symbol: &str) -> (r: Vec<String>)
        ensures
            r@.map_values(|t: String| t@) == targets_of(self.notations@, symbol@),
    {
        let mut out: Vec<String> = Vec::new();
        let mut k: usize = 0;
        while k < self.notations.len()
            invariant
                k <= self.notations@.len(),
                out@.map_values(|t: String| t@) == targets_of(self.notations@.take(k as int), symbol@),
            decreases self.notations.len() - k,
        {
            proof {
                assert(self.notations@.take(k as int + 1).drop_last() == self.notations@.take(k as int));
                assert(self.notations@.take(k as int + 1).last() == self.notations@[k as int]);
            }
            if str_eq(self.notations[k].symbol.as_str(), symbol) {
                let ghost before = out@;
                let t = self.notations[k].target.clone();
                out.push(t);
                proof {
                    assert(out@.map_values(|t: String| t@) =~= before.map_values(|t: String| t@).push(t@));
                }
            }
            k = k + 1;
        }
        proof {
            assert(self.notations@.take(self.notations@.len() as int) == self.notations@);
        }
        out
    }

    /// A notation node; the first target is the primary one, the others are
    /// the overload alternatives.
    fn notation_node(
        &self,
        symbol: &str,
        assoc: NotationAssoc,
        lhs: Option<Box<Expr>>,
        rhs: Option<Box<Expr>>,
        span: Span,
    ) -> (r: Expr)
        ensures
            r matches Expr::Notation { symbol: s, assoc: a, lhs: l, rhs: x, span: sp, .. } && s@
                == symbol@ && a == assoc && l == lhs && x == rhs && sp == span,
    {
        let mut targets = self.notation_targets(symbol);
        let (target, alternatives) = if targets.len() > 0 {
            let first = targets.remove(0);
            (first, targets)
        } else {
            (String::new(), Vec::new())
        };
        Expr::Notation {
            symbol: String::from_str(symbol),
            target,
            assoc,
            lhs,
            rhs,
            alternatives,
            span,
        }
    }

    fn is_binder_notation(&self, symbol: &str) -> (r: bool)
        requires
            self.wf(),
        ensures
            r == declared_as(self.notations@, symbol@, NotationAssoc::Binder),
    {
        match self.notation_shape(symbol) {
            Some((a, _)) => a == NotationAssoc::Binder,
            None => false,
        }
    }

    fn push_entry(&mut self, entry: NotationEntry)
        requires
            old(self).wf(),
            entry_ok(entry),
        ensures
            final(self).wf(),
            final(self).tokens == old(self).tokens,
            final(self).cursor == old(self).cursor,
            final(self).by_depth == old(self).by_depth,
            final(self).scrutinee_depth == old(self).scrutinee_depth,
            final(self).notations@ == old(self).notations@.push(entry),
            final(self).scoped_pending == old(self).scoped_pending,
            final(self).opened_scopes == old(self).opened_scopes,
            final(self).inherited_symbols == old(self).inherited_symbols,
            final(self).namespaces == old(self).namespaces,
    {
        self.notations.push(entry);
    }

    /// `open scoped <scope>`: move the pending declarations of that scope
    /// into the active table and remember that the scope is open.
    fn activate_scope(&mut self, scope: &str)
        requires
            old(self).wf(),
        ensures
            Self::step(old(self), final(self)),
            final(self).cursor == old(self).cursor,
            final(self).namespaces == old(self).namespaces,
            exists|k: int| 0 <= k < final(self).opened_scopes@.len() && final(self).opened_scopes@[k]@ == scope@,
            forall|k: int|
                0 <= k < final(self).scoped_pending@.len() ==> (#[trigger] final(self).scoped_pending@[k]).scope@
                    != scope@,
    {
        if !contains_string(&self.opened_scopes, scope) {
            self.opened_scopes.push(String::from_str(scope));
            assert(self.opened_scopes@.last()@ == scope@);
        }
        let mut index: usize = 0;
        while index < self.scoped_pending.len()
            invariant
                self.wf(),
                self.tokens == old(self).tokens,
                self.cursor == old(self).cursor,
                self.by_depth == old(self).by_depth,
                self.scrutinee_depth == old(self).scrutinee_depth,
                self.namespaces == old(self).namespaces,
                exists|k: int| 0 <= k < self.opened_scopes@.len() && self.opened_scopes@[k]@ == scope@,
                index <= self.scoped_pending@.len(),
                forall|k: int|
                    0 <= k < index ==> (#[trigger] self.scoped_pending@[k]).scope@ != scope@,
            decreases self.scoped_pending.len() - index,
        {
            if str_eq(self.scoped_pending[index].scope.as_str(), scope) {
                proof {
                    assert(entry_ok(self.scoped_pending@[index as int].entry));
                }
                let ghost before = self.scoped_pending@;
                let pending = self.scoped_pending.remove(index);
                assert forall|k: int| 0 <= k < self.scoped_pending@.len() implies entry_ok(
                    #[trigger] self.scoped_pending@[k].entry,
                ) by {
                    if k < index {
                        assert(self.scoped_pending@[k] == before[k]);
                    } else {
                        assert(self.scoped_pending@[k] == before[k + 1]);
                    }
                };
                assert forall|k: int| 0 <= k < index implies (
                #[trigger] self.scoped_pending@[k]).scope@ != scope@ by {
                    assert(self.scoped_pending@[k] == before[k]);
                };
                self.push_entry(pending.entry);
            } else {
                index = index + 1;
            }
        }
    }

    /// Register a notation. Built-in and inherited symbols cannot be
    /// declared; a symbol already declared (active or pending) may only be
    /// overloaded with the same shape; a `scoped` declaration waits until its
    /// scope is opened.
    fn register_notation(
        &mut self,
        symbol: String,
        precedence: Option<u16>,
        assoc: NotationAssoc,
        target: String,
        scope: Option<String>,
        span: Span,
    ) -> (r: Result<()>)
        requires
            old(self).wf(),
            prec_ok(precedence),
        ensures
            Self::step(old(self), final(self)),
            final(self).cursor == old(self).cursor,
            final(self).namespaces == old(self).namespaces,
            r is Ok ==> !spec_is_builtin(symbol@),
            r is Ok ==> forall|k: int|
                0 <= k < old(self).inherited_symbols@.len()
                    ==> #[trigger] old(self).inherited_symbols@[k]@ != symbol@,
            r is Ok ==> forall|k: int|
                0 <= k < old(self).notations@.len() && (#[trigger] old(self).notations@[k]).symbol@
                    == symbol@ && (forall|m: int| 0 <= m < k ==> old(self).notations@[m].symbol@ != symbol@)
                    ==> old(self).notations@[k].assoc == assoc && old(self).notations@[k].precedence
                    == precedence,
            r is Err ==> *final(self) == *old(self),
            r is Ok <==> notation_admitted(*old(self), symbol@, assoc, precedence),
            r is Ok && (scope matches Some(s) && !has_scope(old(self).opened_scopes@, s@)) ==> final(self).scoped_pending@ == old(self).scoped_pending@.push(
                ScopedNotation { scope: scope->Some_0, entry: NotationEntry { symbol, precedence, assoc, target } },
            ) && final(self).notations == old(self).notations,
            r is Ok && !(scope matches Some(s) && !has_scope(old(self).opened_scopes@, s@)) ==> final(self).notations@ == old(self).notations@.push(NotationEntry { symbol, precedence, assoc, target })
                && final(self).scoped_pending == old(self).scoped_pending,
    {
        if is_builtin_symbol(symbol.as_str()) {
            return Err(
                shape_error(
                    concat3(
                        "符号 `",
                        symbol.as_str(),
                        "` 是**语言内建记法**（Lean core 级的逻辑符号），不需要也不能重新声明；直接用就行",
                    ),
                    span,
                ),
            );
        }
        if contains_string(&self.inherited_symbols, symbol.as_str()) {
            return Err(
                shape_error(
                    concat3(
                        "符号 `",
                        symbol.as_str(),
                        "` 已经声明过记法了（由 import 带进来）：同一个符号在**同一文件**里可以重载，但不能覆盖 import 来的记法；换个符号，或改依赖",
                    ),
                    span,
                ),
            );
        }
        let clash: Option<(NotationAssoc, Option<u16>)> = match self.notation_index(
            symbol.as_str(),
        ) {
            Some(k) => Some((self.notations[k].assoc, self.notations[k].precedence)),
            None => {
                let mut found: Option<(NotationAssoc, Option<u16>)> = None;
                let mut q: usize = 0;
                while q < self.scoped_pending.len()
                    invariant_except_break
                        pending_shape(self.scoped_pending@, symbol@, q as int) == pending_shape(
                            self.scoped_pending@,
                            symbol@,
                            0,
                        ),
                        found is None,
                    invariant
                        q <= self.scoped_pending@.len(),
                    ensures
                        found == pending_shape(self.scoped_pending@, symbol@, 0),
                    decreases self.scoped_pending.len() - q,
                {
                    if str_eq(self.scoped_pending[q].entry.symbol.as_str(), symbol.as_str()) {
                        found = Some(
                            (self.scoped_pending[q].entry.assoc, self.scoped_pending[q].entry.precedence),
                        );
                        break ;
                    }
                    q = q + 1;
                }
                found
            },
        };
        match clash {
            Some((existing_assoc, existing_precedence)) => {
                if existing_assoc != assoc || existing_precedence != precedence {
                    return Err(
                        shape_error(
                            concat3(
                                "符号 `",
                                symbol.as_str(),
                                "` 已经用另一种形状声明过了：同一个符号上的重载必须形状一致（结合性与优先级都相同）；要换形状就换个符号",
                            ),
                            span,
                        ),
                    );
                }
            },
            None => {},
        }
        let entry = NotationEntry { symbol, precedence, assoc, target };
        match scope {
            Some(scope) => {
                if !contains_string(&self.opened_scopes, scope.as_str()) {
                    self.scoped_pending.push(ScopedNotation { scope, entry });
                } else {
                    self.push_entry(entry);
                }
            },
            None => self.push_entry(entry),
        }
        Ok(())
    }

    /// The accumulated prefix of the innermost open namespace.
    fn current_namespace(&self) -> (r: Option<&str>)
        ensures
            self.namespaces@.len() == 0 ==> r is None,
            self.namespaces@.len() > 0 ==> (r matches Some(p) && p@ == self.namespaces@.last().full@),
    {
        let n = self.namespaces.len();
        if n == 0 {
            None
        } else {
            Some(self.namespaces[n - 1].full.as_str())
        }
    }

    /// A declaration name with the namespace prefix (`A.mem` inside
    /// `namespace A`).
    fn qualify_decl_name(&self, name: String) -> (r: String)
        ensures
            r@ == spec_join_ns(
                if self.namespaces@.len() > 0 {
                    Some(self.namespaces@.last().full@)
                } else {
                    None
                },
                name@,
            ),
    {
        match self.current_namespace() {
            Some(prefix) => join_ns(Some(prefix), name.as_str()),
            None => name,
        }
    }
}

/// Whether two kinds are the same punctuation kind.
pub open spec fn spec_same_unit(a: TokenKind, b: TokenKind) -> bool {
    match (a, b) {
        (TokenKind::Forall, TokenKind::Forall) => true,
        (TokenKind::Arrow, TokenKind::Arrow) => true,
        (TokenKind::FatArrow, TokenKind::FatArrow) => true,
        (TokenKind::Colon, TokenKind::Colon) => true,
        (TokenKind::ColonEq, TokenKind::ColonEq) => true,
        (TokenKind::LParen, TokenKind::LParen) => true,
        (TokenKind::RParen, TokenKind::RParen) => true,
        (TokenKind::LBrace, TokenKind::LBrace) => true,
        (TokenKind::RBrace, TokenKind::RBrace) => true,
        (TokenKind::Comma, TokenKind::Comma) => true,
        (TokenKind::Semicolon, TokenKind::Semicolon) => true,
        (TokenKind::Pipe, TokenKind::Pipe) => true,
        (TokenKind::Rangle, TokenKind::Rangle) => true,
        _ => false,
    }
}

fn same_unit(a: &TokenKind, b: &TokenKind) -> (r: bool)
    ensures
        r == spec_same_unit(*a, *b),
{
    match (a, b) {
        (TokenKind::Forall, TokenKind::Forall) => true,
        (TokenKind::Arrow, TokenKind::Arrow) => true,
        (TokenKind::FatArrow, TokenKind::FatArrow) => true,
        (TokenKind::Colon, TokenKind::Colon) => true,
        (TokenKind::ColonEq, TokenKind::ColonEq) => true,
        (TokenKind::LParen, TokenKind::LParen) => true,
        (TokenKind::RParen, TokenKind::RParen) => true,
        (TokenKind::LBrace, TokenKind::LBrace) => true,
        (TokenKind::RBrace, TokenKind::RBrace) => true,
        (TokenKind::Comma, TokenKind::Comma) => true,
        (TokenKind::Semicolon, TokenKind::Semicolon) => true,
        (TokenKind::Pipe, TokenKind::Pipe) => true,
        (TokenKind::Rangle, TokenKind::Rangle) => true,
        _ => false,
    }
}

/// Imports come first: no `import` follows a non-`import` command.
pub open spec fn imports_first(cmds: Seq<Command>) -> bool {
    forall|i: int, j: int|
        0 <= i < j < cmds.len() && (#[trigger] cmds[j]) is Import ==> (#[trigger] cmds[i]) is Import
}

/// No two names with the same text.
pub open spec fn distinct_names(v: Seq<String>) -> bool {
    forall|i: int, j: int| 0 <= i < j < v.len() ==> (#[trigger] v[i])@ != (#[trigger] v[j])@
}

/// A declaration names each of its universe parameters once (also the
/// declaration inside an `open … in`).
pub open spec fn universes_distinct(c: Command) -> bool
    decreases c,
{
    match c {
        Command::Def { universe, .. } => distinct_names(universe@),
        Command::Theorem { universe, .. } => distinct_names(universe@),
        Command::Axiom { universe, .. } => distinct_names(universe@),
        Command::OpenIn { inner, .. } => universes_distinct(*inner),
        _ => true,
    }
}

/// A name of an `open`/`export` clause: undotted and not a keyword.
pub open spec fn short_name(n: Seq<char>) -> bool {
    !n.contains('.') && !spec_namespace_name_keyword(n)
}

/// The names of `(a b …)` from index `i` on, added to `acc`, and the index
/// after the `)`: each name short; `None` where another token comes.
pub open spec fn paren_names(toks: Seq<Token>, i: int, acc: Seq<Seq<char>>) -> Option<(Seq<Seq<char>>, int)>
    decreases toks.len() - i,
{
    if i < 0 || i >= toks.len() {
        None
    } else {
        match toks[i].kind {
            TokenKind::Ident(n) => if short_name(n@) {
                paren_names(toks, i + 1, acc.push(n@))
            } else {
                None
            },
            TokenKind::RParen => Some((acc, i + 1)),
            _ => None,
        }
    }
}

/// The names after `hiding` from index `i` on, added to `acc`: the list
/// runs while short-name tokens come; `None` where one of them is dotted.
pub open spec fn hiding_names(toks: Seq<Token>, i: int, acc: Seq<Seq<char>>) -> Option<Seq<Seq<char>>>
    decreases toks.len() - i,
{
    if i < 0 || i >= toks.len() || !spec_short_name_at(toks[i]) {
        Some(acc)
    } else if toks[i].kind matches TokenKind::Ident(n) && short_name(n@) {
        hiding_names(toks, i + 1, acc.push(toks[i].kind->Ident_0@))
    } else {
        None
    }
}

/// The pairs `a => b, …` after `renaming` from index `i` on, added to `acc`.
pub open spec fn renaming_pairs(toks: Seq<Token>, i: int, acc: Seq<(Seq<char>, Seq<char>)>) -> Option<
    Seq<(Seq<char>, Seq<char>)>,
>
    decreases toks.len() - i,
{
    if i < 0 || i + 2 >= toks.len() {
        None
    } else if toks[i].kind matches TokenKind::Ident(a) && short_name(a@) && toks[i + 1].kind is FatArrow && (
    toks[i + 2].kind matches TokenKind::Ident(b) && short_name(b@)) {
        let next = acc.push((toks[i].kind->Ident_0@, toks[i + 2].kind->Ident_0@));
        if i + 3 < toks.len() && toks[i + 3].kind is Comma {
            renaming_pairs(toks, i + 4, next)
        } else {
            Some(next)
        }
    } else {
        None
    }
}

pub open spec fn pair_views(v: Seq<(String, String)>) -> Seq<(Seq<char>, Seq<char>)> {
    v.map_values(|p: (String, String)| (p.0@, p.1@))
}

/// The clause of an `open`/`export`: at most one of `(…)`, `hiding`,
/// `renaming` is written, a written list is not empty, and every name in
/// it is short.
pub open spec fn filter_well_formed(f: OpenFilter) -> bool {
    &&& (f.only is Some ==> f.hiding@.len() == 0 && f.renaming@.len() == 0)
    &&& (f.hiding@.len() > 0 ==> f.renaming@.len() == 0)
    &&& (f.only matches Some(v) ==> v@.len() > 0 && forall|k: int| 0 <= k < v@.len() ==> short_name(
        #[trigger] v@[k]@,
    ))
    &&& forall|k: int| 0 <= k < f.hiding@.len() ==> short_name(#[trigger] f.hiding@[k]@)
    &&& forall|k: int|
        0 <= k < f.renaming@.len() ==> short_name((#[trigger] f.renaming@[k]).0@) && short_name(
            f.renaming@[k].1@,
        )
}

/// A parsed command's shape: an `import` names a valid module, the
/// universe parameters of a declaration are distinct, and an
/// `open`/`export` clause is well formed.
pub open spec fn command_well_formed(c: Command) -> bool {
    &&& universes_distinct(c)
    &&& match c {
        Command::Import { module, .. } => spec_module_name(module@) is Valid,
        Command::Open { filter, .. } => filter_well_formed(filter),
        Command::OpenIn { filter, .. } => filter_well_formed(filter),
        Command::Export { filter, .. } => filter_well_formed(filter),
        _ => true,
    }
}

/// Every command of `cmds` is well formed.
pub open spec fn commands_well_formed(cmds: Seq<Command>) -> bool {
    forall|k: int| 0 <= k < cmds.len() ==> command_well_formed(#[trigger] cmds[k])
}

impl Parser {
    // -----------------------------------------------------------------------
    // Files and commands.
    // -----------------------------------------------------------------------

    /// Parse a whole file; every `namespace` must be closed at the end.
    pub fn parse_file(&mut self, src: &str) -> (r: Result<FolFile>)
        requires
            old(self).wf(),
        ensures
            Self::step(old(self), final(self)),
            r matches Ok(f) ==> f.src@ == src@ && imports_first(f.commands@)
                && final(self).open_namespaces() == 0 && final(self).cur().kind is Eof,
            r matches Ok(f) ==> notations_prec_ok(f.commands@),
            r matches Ok(f) ==> commands_well_formed(f.commands@),
    {
        self.parse_file_with(src, true)
    }

    /// Parse a fragment of a file: like [`Parser::parse_file`] but a
    /// `namespace` may stay open at the end.
    pub fn parse_fragment(&mut self, src: &str) -> (r: Result<FolFile>)
        requires
            old(self).wf(),
        ensures
            Self::step(old(self), final(self)),
            r matches Ok(f) ==> f.src@ == src@ && imports_first(f.commands@)
                && final(self).cur().kind is Eof,
            r matches Ok(f) ==> notations_prec_ok(f.commands@),
            r matches Ok(f) ==> commands_well_formed(f.commands@),
    {
        self.parse_file_with(src, false)
    }

    fn parse_file_with(&mut self, src: &str, require_closed: bool) -> (r: Result<FolFile>)
        requires
            old(self).wf(),
        ensures
            Self::step(old(self), final(self)),
            r matches Ok(f) ==> f.src@ == src@ && imports_first(f.commands@)
                && final(self).cur().kind is Eof,
            r matches Ok(f) ==> notations_prec_ok(f.commands@),
            r matches Ok(f) ==> commands_well_formed(f.commands@),
            r is Ok && require_closed ==> final(self).open_namespaces() == 0,
    {
        let mut commands: Vec<Command> = Vec::new();
        let mut seen_declaration = false;
        while !self.at_eof()
            invariant
                Self::step(old(self), self),
                imports_first(commands@),
                notations_prec_ok(commands@),
                commands_well_formed(commands@),
                seen_declaration == exists|k: int| 0 <= k < commands@.len() && !(#[trigger] commands@[k] is Import),
            decreases self.remaining(),
        {
            let command = self.parse_command()?;
            if command.is_import() {
                if seen_declaration {
                    return Err(
                        Diagnostic::new(
                            DiagnosticKind::ImportMustPrecedeDeclarations,
                            command.span(),
                            String::from_str("`import` 必须写在所有声明之前"),
                        ),
                    );
                }
            } else {
                seen_declaration = true;
            }
            let ghost before = commands@;
            commands.push(command);
            assert forall|i: int, j: int|
                0 <= i < j < commands@.len() && (#[trigger] commands@[j]) is Import implies (
                #[trigger] commands@[i]) is Import by {
                if j < before.len() {
                    assert(commands@[i] == before[i]);
                    assert(commands@[j] == before[j]);
                } else {
                    assert(commands@[i] == before[i]);
                }
            };
            assert(seen_declaration == exists|k: int|
                0 <= k < commands@.len() && !(#[trigger] commands@[k] is Import)) by {
                if seen_declaration {
                    if !(commands@.last() is Import) {
                        assert(!(commands@[commands@.len() - 1] is Import));
                    } else {
                        let k = choose|k: int| 0 <= k < before.len() && !(#[trigger] before[k] is Import);
                        assert(commands@[k] == before[k]);
                    }
                } else {
                    assert forall|k: int| 0 <= k < commands@.len() implies (#[trigger] commands@[k]) is Import by {
                        if k < before.len() {
                            assert(commands@[k] == before[k]);
                        }
                    };
                }
            };
        }
        if require_closed {
            let n = self.namespaces.len();
            if n > 0 {
                let open = &self.namespaces[n - 1];
                return Err(
                    Diagnostic::new(
                        DiagnosticKind::NamespaceUnclosed { name: open.written.clone() },
                        open.span,
                        concat3("`namespace ", open.written.as_str(), "` 没有闭合：文件到这里就结束了"),
                    ),
                );
            }
        }
        Ok(FolFile { commands, src: String::from_str(src) })
    }

    fn parse_command(&mut self) -> (r: Result<Command>)
        requires
            old(self).wf(),
        ensures
            Self::step(old(self), final(self)),
            r is Ok ==> final(self).cursor > old(self).cursor,
            r matches Ok(c) ==> notation_prec_ok(c),
            r matches Ok(c) ==> command_well_formed(c),
        decreases old(self).remaining(), 2nat,
    {
        if self.at_word("import") {
            self.parse_import()
        } else if self.at_word("def") || self.at_word("abbrev") {
            self.parse_def()
        } else if self.at_word("theorem") {
            self.parse_theorem()
        } else if self.at_word("example") {
            self.parse_example()
        } else if self.at_word("axiom") {
            self.parse_axiom()
        } else if self.at_word("inductive") {
            self.parse_inductive_block()
        } else if self.at_word("#check") {
            self.parse_hash_check()
        } else if self.at_word("#reduce") {
            self.parse_hash_reduce()
        } else if self.at_word("#print") {
            self.parse_hash_print()
        } else if self.at_word("infix") || self.at_word("infixl") || self.at_word("infixr") {
            self.parse_infix_command(None)
        } else if self.at_word("prefix") || self.at_word("postfix") {
            self.parse_unary_notation_command(None)
        } else if self.at_word("notation") {
            self.parse_notation_command(None)
        } else if self.at_word("binder_notation") {
            self.parse_binder_notation_command(None)
        } else if self.at_word("scoped") {
            self.parse_scoped_notation_command()
        } else if self.at_word("namespace") {
            self.parse_namespace_command()
        } else if self.at_word("end") {
            self.parse_end_command()
        } else if self.at_word("open") {
            self.parse_open_command()
        } else if self.at_word("export") {
            self.parse_export_command()
        } else {
            let found = kind_debug(&self.peek().kind);
            let msg = concat2("expected a .sokonanoda command, found ", found.as_str());
            Err(self.error_at_current(msg))
        }
    }

    /// `namespace <name>`: open a namespace block.
    fn parse_namespace_command(&mut self) -> (r: Result<Command>)
        requires
            old(self).wf(),
            old(self).cur().kind is Ident,
        ensures
            Self::step(old(self), final(self)),
            r is Ok ==> final(self).cursor > old(self).cursor,
            r is Ok ==> final(self).namespaces@.len() == old(self).namespaces@.len() + 1,
            r matches Ok(c) ==> notation_prec_ok(c),
            r matches Ok(c) ==> command_well_formed(c),
            r is Ok <==> (old(self).tokens@[old(self).cursor + 1].kind matches TokenKind::Ident(w) && !(w@.len()
                > 0 && w@.last() == '.') && !spec_namespace_name_keyword(w@)),
            r matches Ok(Command::Namespace { name, .. }) ==> (old(self).tokens@[old(self).cursor
                + 1].kind matches TokenKind::Ident(w) && w@ == name@) && final(self).namespaces@.last().written
                == name,
    {
        let kw = self.bump();
        let name = self.expect_namespace_name("namespace")?;
        let span = Span::new(kw.span.start, self.prev_end());
        let full = join_ns(self.current_namespace(), name.as_str());
        self.namespaces.push(OpenNamespace { written: name.clone(), full, span });
        Ok(Command::Namespace { name, span })
    }

    /// `end <name>`: close the innermost namespace; the name must be the one
    /// written on `namespace` or its accumulated prefix.
    fn parse_end_command(&mut self) -> (r: Result<Command>)
        requires
            old(self).wf(),
            old(self).cur().kind is Ident,
        ensures
            Self::step(old(self), final(self)),
            r is Ok ==> final(self).cursor > old(self).cursor,
            r is Ok ==> old(self).namespaces@.len() > 0 && final(self).namespaces@
                == old(self).namespaces@.drop_last(),
            r matches Ok(Command::End { name, .. }) ==> name@ == old(self).namespaces@.last().written@
                || name@ == old(self).namespaces@.last().full@,
            r matches Ok(c) ==> notation_prec_ok(c),
            r matches Ok(c) ==> command_well_formed(c),
            r is Ok <==> (old(self).tokens@[old(self).cursor + 1].kind matches TokenKind::Ident(n) && !(n@.len()
                > 0 && n@.last() == '.') && !spec_namespace_name_keyword(n@) && old(self).namespaces@.len() > 0 && (n@
                == old(self).namespaces@.last().written@ || n@ == old(self).namespaces@.last().full@)),
            r matches Ok(Command::End { name, .. }) ==> old(self).tokens@[old(self).cursor + 1].kind
                == TokenKind::Ident(name),
    {
        let kw = self.bump();
        let tok_span = self.peek_span();
        let name = match &self.peek().kind {
            TokenKind::Ident(name) => name.clone(),
            other => {
                let found = kind_debug(other);
                return Err(
                    Diagnostic::new(
                        DiagnosticKind::NamespaceShape {
                            detail: concat2("`end` 后面要跟命名空间的名字，found ", found.as_str()),
                        },
                        kw.span,
                        String::from_str("`end` 后面要跟命名空间的名字"),
                    ),
                );
            },
        };
        if ends_with_char(name.as_str(), '.') || is_namespace_name_keyword(name.as_str()) {
            return Err(
                Diagnostic::new(
                    DiagnosticKind::NamespaceShape {
                        detail: concat3("`end ", name.as_str(), "` 的名字不合法"),
                    },
                    tok_span,
                    concat3("`end` 后面要跟命名空间的名字，`", name.as_str(), "` 不是合法的名字"),
                ),
            );
        }
        let n = self.namespaces.len();
        if n == 0 {
            return Err(
                Diagnostic::new(
                    DiagnosticKind::NamespaceMismatch { found: name.clone(), expected: None },
                    Span::new(kw.span.start, tok_span.end),
                    concat5("`end ", name.as_str(), "` 没有对应的 `namespace ", name.as_str(), "`"),
                ),
            );
        }
        if !str_eq(name.as_str(), self.namespaces[n - 1].written.as_str()) && !str_eq(
            name.as_str(),
            self.namespaces[n - 1].full.as_str(),
        ) {
            let written = self.namespaces[n - 1].written.clone();
            let head = concat5(
                "`end ",
                name.as_str(),
                "` 与最近的 `namespace ",
                written.as_str(),
                "` 不匹配（应该写 `end ",
            );
            let message = concat3(head.as_str(), written.as_str(), "`）");
            return Err(
                Diagnostic::new(
                    DiagnosticKind::NamespaceMismatch { found: name.clone(), expected: Some(written) },
                    Span::new(kw.span.start, tok_span.end),
                    message,
                ),
            );
        }
        self.namespaces.pop();
        self.bump();
        Ok(Command::End { name, span: Span::new(kw.span.start, tok_span.end) })
    }

    fn parse_open_command(&mut self) -> (r: Result<Command>)
        requires
            old(self).wf(),
            old(self).cur().kind is Ident,
        ensures
            Self::step(old(self), final(self)),
            r is Ok ==> final(self).cursor > old(self).cursor,
            r matches Ok(Command::OpenIn { inner, .. }) ==> spec_open_in_body(*inner),
            r matches Ok(c) ==> notation_prec_ok(c),
            r matches Ok(c) ==> command_well_formed(c),
            !(old(self).tokens@[old(self).cursor + 1].kind is Ident) ==> r is Err,
            r matches Ok(Command::Open { name, scoped, .. }) ==> (if scoped {
                old(self).tokens@[old(self).cursor + 1].kind matches TokenKind::Ident(s) && s@ == "scoped"@
                    && (old(self).tokens@[old(self).cursor + 2].kind matches TokenKind::Ident(w) && w@ == name@)
            } else {
                old(self).tokens@[old(self).cursor + 1].kind matches TokenKind::Ident(w) && w@ == name@
            }),
        decreases old(self).remaining(), 1nat,
    {
        let kw = self.bump();
        if self.at_word("scoped") {
            self.bump();
            let name = self.expect_namespace_name("open scoped")?;
            let span = Span::new(kw.span.start, self.prev_end());
            if self.at_word("in") {
                return Err(
                    ns_shape_error(
                        String::from_str(
                            "`open scoped … in …` 本轮不做：把这条命令单独写在一行即可（`open scoped Foo` 之后本文件都能用）",
                        ),
                        self.peek_span(),
                    ),
                );
            }
            self.activate_scope(name.as_str());
            return Ok(Command::Open { name, scoped: true, filter: OpenFilter::empty(), span });
        }
        let name = self.expect_namespace_name("open")?;
        let filter = self.parse_open_filter("open")?;
        self.reject_a_second_clause("open")?;
        let header = Span::new(kw.span.start, self.prev_end());
        if self.at_word("in") {
            self.bump();
            let inner = self.parse_command()?;
            if !is_open_in_body(&inner) {
                return Err(
                    ns_shape_error(
                        String::from_str(
                            "`open … in` 后面只能跟一条声明或 `#check`/`#reduce`/`#print`",
                        ),
                        inner.span(),
                    ),
                );
            }
            let span = Span::new(kw.span.start, inner.span().end);
            return Ok(Command::OpenIn { name, filter, inner: Box::new(inner), header, span });
        }
        Ok(Command::Open { name, scoped: false, filter, span: header })
    }

    /// `export <name> [<clause>]`: like `open` but without `in`.
    fn parse_export_command(&mut self) -> (r: Result<Command>)
        requires
            old(self).wf(),
            old(self).cur().kind is Ident,
        ensures
            Self::step(old(self), final(self)),
            r is Ok ==> final(self).cursor > old(self).cursor,
            r matches Ok(c) ==> notation_prec_ok(c),
            r matches Ok(c) ==> command_well_formed(c),
            !(old(self).tokens@[old(self).cursor + 1].kind matches TokenKind::Ident(w) && !(w@.len() > 0
                && w@.last() == '.') && !spec_namespace_name_keyword(w@)) ==> r is Err,
            r matches Ok(Command::Export { name, .. }) ==> (old(self).tokens@[old(self).cursor + 1].kind matches TokenKind::Ident(
                w,
            ) && w@ == name@),
    {
        let kw = self.bump();
        let name = self.expect_namespace_name("export")?;
        let filter = self.parse_open_filter("export")?;
        self.reject_a_second_clause("export")?;
        if self.at_word("in") {
            return Err(
                ns_shape_error(
                    String::from_str(
                        "`export` 不吃 `in`：要只影响一条命令请用 `open Foo in <命令>`",
                    ),
                    self.peek_span(),
                ),
            );
        }
        Ok(Command::Export { name, filter, span: Span::new(kw.span.start, self.prev_end()) })
    }

    /// At most one clause: a second `(…)`, `hiding` or `renaming` is an error.
    fn reject_a_second_clause(&self, keyword: &str) -> (r: Result<()>)
        requires
            self.wf(),
        ensures
            r is Err <==> (self.cur().kind is LParen || (self.cur().kind matches TokenKind::Ident(w)
                && (w@ == "hiding"@ || w@ == "renaming"@))),
    {
        let second = match &self.peek().kind {
            TokenKind::LParen => true,
            TokenKind::Ident(word) => str_eq(word.as_str(), "hiding") || str_eq(
                word.as_str(),
                "renaming",
            ),
            _ => false,
        };
        if second {
            let head = concat3("`", keyword, "` 的子句最多写一条：`(a b)`（only）/ `hiding a b` / ");
            return Err(
                ns_shape_error(
                    concat2(
                        head.as_str(),
                        "`renaming a => b` 三条**互斥**——组合起来的先后顺序本轮没取证，所以不猜",
                    ),
                    self.peek_span(),
                ),
            );
        }
        Ok(())
    }

    /// The optional clause of `open`/`export`: `(a b)`, `hiding a b` or
    /// `renaming a => b, c => d`.
    fn parse_open_filter(&mut self, keyword: &str) -> (r: Result<OpenFilter>)
        requires
            old(self).wf(),
        ensures
            Self::expr_step(old(self), final(self)),
            r matches Ok(f) ==> filter_well_formed(f),
            r matches Ok(f) ==> (old(self).cur().kind matches TokenKind::Ident(w) && w@ == "hiding"@
                ==> f.hiding@.len() > 0),
            !(old(self).cur().kind is LParen || (old(self).cur().kind matches TokenKind::Ident(w) && (w@
                == "hiding"@ || w@ == "renaming"@))) ==> (r matches Ok(f) && f.spec_is_empty()) && *final(self)
                == *old(self),
            old(self).cur().kind matches TokenKind::Ident(w) && w@ == "hiding"@ && !spec_short_name_at(
                old(self).tokens@[old(self).cursor + 1],
            ) ==> r is Err,
            old(self).cur().kind is LParen && old(self).tokens@[old(self).cursor + 1].kind is RParen ==> r is Err,
            old(self).cur().kind is LParen ==> (r is Ok <==> (paren_names(
                old(self).tokens@,
                old(self).cursor + 1,
                Seq::empty(),
            ) matches Some((ns, _)) && ns.len() > 0)),
            old(self).cur().kind is LParen ==> (r matches Ok(f) ==> (f.only matches Some(v) && paren_names(
                old(self).tokens@,
                old(self).cursor + 1,
                Seq::empty(),
            ) matches Some((ns, _)) && string_views(v@) == ns)),
            (old(self).cur().kind matches TokenKind::Ident(w) && w@ == "hiding"@) ==> (r is Ok <==> (hiding_names(
                old(self).tokens@,
                old(self).cursor + 1,
                Seq::empty(),
            ) matches Some(ns) && ns.len() > 0)),
            (old(self).cur().kind matches TokenKind::Ident(w) && w@ == "hiding"@) ==> (r matches Ok(f) ==> (hiding_names(
                old(self).tokens@,
                old(self).cursor + 1,
                Seq::empty(),
            ) == Some(string_views(f.hiding@)) && f.only is None && f.renaming@.len() == 0)),
            (old(self).cur().kind matches TokenKind::Ident(w) && w@ == "renaming"@) ==> (r is Ok <==> renaming_pairs(
                old(self).tokens@,
                old(self).cursor + 1,
                Seq::empty(),
            ) is Some),
            (old(self).cur().kind matches TokenKind::Ident(w) && w@ == "renaming"@) ==> (r matches Ok(f) ==> (renaming_pairs(
                old(self).tokens@,
                old(self).cursor + 1,
                Seq::empty(),
            ) == Some(pair_views(f.renaming@)) && f.only is None && f.hiding@.len() == 0)),
    {
        proof {
            reveal_strlit("hiding");
            reveal_strlit("renaming");
            assert("hiding"@[0] != "renaming"@[0]);
        }
        let tok_span = self.peek_span();
        if matches!(self.peek().kind, TokenKind::LParen) {
            self.bump();
            let mut names: Vec<String> = Vec::new();
            proof {
                assert(string_views(names@) =~= Seq::<Seq<char>>::empty());
            }
            loop
                invariant_except_break
                    old(self).tokens@[old(self).cursor + 1].kind is RParen ==> names@.len() == 0
                        && self.cursor == old(self).cursor + 1,
                    paren_names(self.tokens@, self.cursor as int, string_views(names@)) == paren_names(
                        old(self).tokens@,
                        old(self).cursor + 1,
                        Seq::empty(),
                    ),
                invariant
                    Self::expr_step(old(self), self),
                    forall|k: int| 0 <= k < names@.len() ==> short_name(#[trigger] names@[k]@),
                    old(self).cur().kind is LParen,
                ensures
                    Self::expr_step(old(self), self),
                    forall|k: int| 0 <= k < names@.len() ==> short_name(#[trigger] names@[k]@),
                    old(self).tokens@[old(self).cursor + 1].kind is RParen ==> names@.len() == 0,
                    paren_names(old(self).tokens@, old(self).cursor + 1, Seq::empty()) matches Some((ns, _))
                        && ns == string_views(names@),
                decreases self.remaining(),
            {
                if matches!(self.peek().kind, TokenKind::Ident(_)) {
                    let n = self.expect_short_name(keyword)?;
                    let ghost before = names@;
                    names.push(n);
                    proof {
                        assert(string_views(names@) =~= string_views(before).push(n@));
                    }
                } else if matches!(self.peek().kind, TokenKind::RParen) {
                    self.bump();
                    break ;
                } else {
                    let found = kind_debug(&self.peek().kind);
                    let head = concat5("`", keyword, " Foo (a b)` 里只能是短名，found ", found.as_str(), "（例如 `");
                    return Err(
                        ns_shape_error(
                            concat3(head.as_str(), keyword, " Foo (mem union)`）"),
                            self.peek_span(),
                        ),
                    );
                }
            }
            if names.len() == 0 {
                return Err(
                    ns_shape_error(
                        concat3("`", keyword, " Foo ()` 是空的：要么写名字，要么整条子句去掉"),
                        tok_span,
                    ),
                );
            }
            return Ok(OpenFilter { only: Some(names), hiding: Vec::new(), renaming: Vec::new() });
        }
        if self.at_word("hiding") {
            self.bump();
            let mut names: Vec<String> = Vec::new();
            proof {
                assert(string_views(names@) =~= Seq::<Seq<char>>::empty());
            }
            while self.short_name_ahead()
                invariant
                    Self::expr_step(old(self), self),
                    forall|k: int| 0 <= k < names@.len() ==> short_name(#[trigger] names@[k]@),
                    old(self).cur().kind matches TokenKind::Ident(w) && w@ == "hiding"@,
                    !spec_short_name_at(old(self).tokens@[old(self).cursor + 1]) ==> names@.len() == 0
                        && self.cursor == old(self).cursor + 1,
                    hiding_names(self.tokens@, self.cursor as int, string_views(names@)) == hiding_names(
                        old(self).tokens@,
                        old(self).cursor + 1,
                        Seq::empty(),
                    ),
                    "hiding"@ != "renaming"@,
                decreases self.remaining(),
            {
                let n = self.expect_short_name(keyword)?;
                let ghost before = names@;
                names.push(n);
                proof {
                    assert(string_views(names@) =~= string_views(before).push(n@));
                }
            }
            if names.len() == 0 {
                return Err(
                    ns_shape_error(
                        concat3("`", keyword, " Foo hiding` 后面要跟至少一个短名"),
                        tok_span,
                    ),
                );
            }
            return Ok(OpenFilter { only: None, hiding: names, renaming: Vec::new() });
        }
        if self.at_word("renaming") {
            self.bump();
            let mut pairs: Vec<(String, String)> = Vec::new();
            proof {
                assert(pair_views(pairs@) =~= Seq::<(Seq<char>, Seq<char>)>::empty());
            }
            loop
                invariant_except_break
                    renaming_pairs(self.tokens@, self.cursor as int, pair_views(pairs@)) == renaming_pairs(
                        old(self).tokens@,
                        old(self).cursor + 1,
                        Seq::empty(),
                    ),
                invariant
                    Self::expr_step(old(self), self),
                    forall|k: int|
                        0 <= k < pairs@.len() ==> short_name((#[trigger] pairs@[k]).0@) && short_name(
                            pairs@[k].1@,
                        ),
                    old(self).cur().kind matches TokenKind::Ident(w) && w@ == "renaming"@,
                    "hiding"@ != "renaming"@,
                ensures
                    Self::expr_step(old(self), self),
                    forall|k: int|
                        0 <= k < pairs@.len() ==> short_name((#[trigger] pairs@[k]).0@) && short_name(
                            pairs@[k].1@,
                        ),
                    renaming_pairs(old(self).tokens@, old(self).cursor + 1, Seq::empty()) == Some(pair_views(pairs@)),
                decreases self.remaining(),
            {
                let ghost c0 = self.cursor as int;
                let ghost p0 = pair_views(pairs@);
                let from = self.expect_short_name(keyword)?;
                if !self.at_kind_fat_arrow() {
                    let found = kind_debug(&self.peek().kind);
                    let head = concat5("`", keyword, " Foo renaming a => b` 里 `a` 与 `b` 之间要写 `=>`，found ", found.as_str(), "");
                    return Err(ns_shape_error(head, self.peek_span()));
                }
                self.bump();
                let to = self.expect_short_name(keyword)?;
                let ghost fv = from@;
                let ghost tv = to@;
                pairs.push((from, to));
                proof {
                    assert(pair_views(pairs@) =~= p0.push((fv, tv)));
                }
                if self.at_comma() {
                    self.bump();
                    continue ;
                }
                break ;
            }
            return Ok(OpenFilter { only: None, hiding: Vec::new(), renaming: pairs });
        }
        Ok(OpenFilter::empty())
    }

    /// Whether the current token is a short name of a clause list.
    fn short_name_ahead(&self) -> (r: bool)
        requires
            self.wf(),
        ensures
            r ==> self.cur().kind is Ident,
            r == (self.cur().kind matches TokenKind::Ident(n) && !spec_namespace_name_keyword(n@) && n@
                != "in"@ && n@ != "hiding"@ && n@ != "renaming"@),
    {
        match &self.peek().kind {
            TokenKind::Ident(name) => !is_namespace_name_keyword(name.as_str()) && !str_eq(
                name.as_str(),
                "in",
            ) && !str_eq(name.as_str(), "hiding") && !str_eq(name.as_str(), "renaming"),
            _ => false,
        }
    }

    /// A short (undotted, non-keyword) name in a clause.
    fn expect_short_name(&mut self, keyword: &str) -> (r: Result<String>)
        requires
            old(self).wf(),
        ensures
            Self::expr_step(old(self), final(self)),
            r is Ok ==> final(self).cursor > old(self).cursor,
            r matches Ok(n) ==> !n@.contains('.') && !spec_namespace_name_keyword(n@),
            r is Ok <==> (old(self).cur().kind matches TokenKind::Ident(w) && !w@.contains('.')
                && !spec_namespace_name_keyword(w@)),
            r matches Ok(n) ==> old(self).cur().kind == TokenKind::Ident(n) && final(self).cursor
                == old(self).cursor + 1,
            r is Err ==> *final(self) == *old(self),
    {
        let tok_span = self.peek_span();
        let name = match &self.peek().kind {
            TokenKind::Ident(name) => {
                if !ends_with_char(name.as_str(), '.') && !is_namespace_name_keyword(name.as_str()) {
                    Some(name.clone())
                } else {
                    None
                }
            },
            _ => None,
        };
        match name {
            Some(name) => {
                if contains_char(name.as_str(), '.') {
                    let head = concat5("`", keyword, "` 的子句里只写**短名**（不带前缀）：`", name.as_str(), "` 去掉点前面的部分");
                    return Err(ns_shape_error(head, tok_span));
                }
                self.bump();
                Ok(name)
            },
            None => {
                let found = kind_debug(&self.peek().kind);
                Err(
                    ns_shape_error(
                        concat4("`", keyword, "` 的子句里要跟短名，found ", found.as_str()),
                        tok_span,
                    ),
                )
            },
        }
    }

    /// `scoped <notation command>`: the scope is the current namespace.
    fn parse_scoped_notation_command(&mut self) -> (r: Result<Command>)
        requires
            old(self).wf(),
            old(self).cur().kind is Ident,
        ensures
            Self::step(old(self), final(self)),
            r is Ok ==> final(self).cursor > old(self).cursor,
            r matches Ok(Command::Notation { scope, .. }) ==> scope is Some,
            r matches Ok(c) ==> notation_prec_ok(c),
            r matches Ok(c) ==> command_well_formed(c),
            !(old(self).tokens@[old(self).cursor + 1].kind matches TokenKind::Ident(w)
                && crate::token::spec_notation_command(w@)) ==> r is Err,
    {
        let kw = self.bump();
        let scope = match self.current_namespace() {
            Some(s) => String::from_str(s),
            None => {
                return Err(
                    shape_error(
                        String::from_str(
                            "`scoped` 要写在 `namespace` 里：作用域名就是那个命名空间，之后用 `open scoped <名字>` 打开它",
                        ),
                        kw.span,
                    ),
                );
            },
        };
        if self.at_word("infix") || self.at_word("infixl") || self.at_word("infixr") {
            self.parse_infix_command(Some(scope))
        } else if self.at_word("prefix") || self.at_word("postfix") {
            self.parse_unary_notation_command(Some(scope))
        } else if self.at_word("notation") {
            self.parse_notation_command(Some(scope))
        } else if self.at_word("binder_notation") {
            self.parse_binder_notation_command(Some(scope))
        } else {
            Err(
                shape_error(
                    String::from_str(
                        "`scoped` 后面要跟一条记法命令（infix/infixl/infixr/prefix/postfix/notation/binder_notation）",
                    ),
                    self.peek_span(),
                ),
            )
        }
    }

    /// The (dotted) name after `namespace`/`open`/`export`.
    fn expect_namespace_name(&mut self, keyword: &str) -> (r: Result<String>)
        requires
            old(self).wf(),
        ensures
            Self::expr_step(old(self), final(self)),
            r is Ok ==> final(self).cursor == old(self).cursor + 1,
            r matches Ok(n) ==> (old(self).cur().kind matches TokenKind::Ident(w) && w@ == n@)
                && !(n@.len() > 0 && n@.last() == '.') && !spec_namespace_name_keyword(n@),
            r is Ok <==> (old(self).cur().kind matches TokenKind::Ident(w) && !(w@.len() > 0 && w@.last()
                == '.') && !spec_namespace_name_keyword(w@)),
            r is Err ==> *final(self) == *old(self),
    {
        let tok_span = self.peek_span();
        let ok = match &self.peek().kind {
            TokenKind::Ident(name) => !ends_with_char(name.as_str(), '.')
                && !is_namespace_name_keyword(name.as_str()),
            _ => false,
        };
        if ok {
            let t = self.bump();
            match t.kind {
                TokenKind::Ident(name) => return Ok(name),
                _ => {},
            }
        }
        let found = kind_debug(&self.peek().kind);
        Err(
            Diagnostic::new(
                DiagnosticKind::NamespaceShape {
                    detail: concat4("`", keyword, "` 后面要跟一个名字，found ", found.as_str()),
                },
                tok_span,
                concat3("`", keyword, "` 后面要跟一个名字（可点分，例如 A.B）"),
            ),
        )
    }

    /// `infix:N " sym " => name` (and `infixl`, `infixr`).
    fn parse_infix_command(&mut self, scope: Option<String>) -> (r: Result<Command>)
        requires
            old(self).wf(),
            old(self).cur().kind is Ident,
        ensures
            Self::step(old(self), final(self)),
            r is Ok ==> final(self).cursor > old(self).cursor,
            r matches Ok(Command::Notation { precedence, .. }) ==> precedence matches Some(p) && 1
                <= p <= 1000,
            r matches Ok(c) ==> (c matches Command::Notation { scope: s, .. } && s == scope),
            r is Ok <==> (old(self).tokens@[old(self).cursor + 1].kind is Colon && (old(self).tokens@[old(
                self,
            ).cursor + 2].kind matches TokenKind::Num(t) && (crate::text::spec_parse_unsigned(t@, u16::MAX as nat) matches Some(
                n,
            ) && 1 <= n <= 1000 && notation_tail_ok(
                *old(self),
                old(self).cursor + 3,
                infix_assoc(old(self).cur()),
                Some(n as u16),
            )))),
    {
        let kw = self.bump();
        let keyword = match kw.kind {
            TokenKind::Ident(w) => w,
            _ => String::new(),
        };
        let assoc = if str_eq(keyword.as_str(), "infix") {
            NotationAssoc::Infix
        } else if str_eq(keyword.as_str(), "infixl") {
            NotationAssoc::Infixl
        } else {
            NotationAssoc::Infixr
        };
        let precedence = self.parse_notation_precedence(keyword.as_str())?;
        let (symbol, _) = self.parse_notation_symbol(keyword.as_str())?;
        proof {
            lemma_symbol_of(old(self).tokens@[old(self).cursor + 3], symbol@);
        }
        self.expect_notation_arrow(keyword.as_str())?;
        let target = self.expect_ident("a notation target name")?;
        let span = Span::new(kw.span.start, self.prev_end());
        self.register_notation(
            symbol.clone(),
            Some(precedence),
            assoc,
            target.clone(),
            clone_opt_string(&scope),
            span,
        )?;
        Ok(Command::Notation { symbol, precedence: Some(precedence), assoc, target, scope, span })
    }

    /// `prefix:N " sym " => name` / `postfix:N " sym " => name`.
    fn parse_unary_notation_command(&mut self, scope: Option<String>) -> (r: Result<Command>)
        requires
            old(self).wf(),
            old(self).cur().kind is Ident,
        ensures
            Self::step(old(self), final(self)),
            r is Ok ==> final(self).cursor > old(self).cursor,
            r matches Ok(Command::Notation { precedence, .. }) ==> precedence matches Some(p) && 1
                <= p <= 1000,
            r matches Ok(c) ==> (c matches Command::Notation { scope: s, .. } && s == scope),
            r is Ok <==> (old(self).tokens@[old(self).cursor + 1].kind is Colon && (old(self).tokens@[old(
                self,
            ).cursor + 2].kind matches TokenKind::Num(t) && (crate::text::spec_parse_unsigned(t@, u16::MAX as nat) matches Some(
                n,
            ) && 1 <= n <= 1000 && notation_tail_ok(
                *old(self),
                old(self).cursor + 3,
                if old(self).cur().kind matches TokenKind::Ident(w) && w@ == "prefix"@ {
                    NotationAssoc::Prefix
                } else {
                    NotationAssoc::Postfix
                },
                Some(n as u16),
            )))),
    {
        let kw = self.bump();
        let keyword = match kw.kind {
            TokenKind::Ident(w) => w,
            _ => String::new(),
        };
        let assoc = if str_eq(keyword.as_str(), "prefix") {
            NotationAssoc::Prefix
        } else {
            NotationAssoc::Postfix
        };
        let precedence = self.parse_notation_precedence(keyword.as_str())?;
        let (symbol, _) = self.parse_notation_symbol(keyword.as_str())?;
        proof {
            lemma_symbol_of(old(self).tokens@[old(self).cursor + 3], symbol@);
        }
        self.expect_notation_arrow(keyword.as_str())?;
        let target = self.expect_ident("a notation target name")?;
        let span = Span::new(kw.span.start, self.prev_end());
        self.register_notation(
            symbol.clone(),
            Some(precedence),
            assoc,
            target.clone(),
            clone_opt_string(&scope),
            span,
        )?;
        Ok(Command::Notation { symbol, precedence: Some(precedence), assoc, target, scope, span })
    }

    /// `notation " sym " => name` (nullary; no precedence).
    fn parse_notation_command(&mut self, scope: Option<String>) -> (r: Result<Command>)
        requires
            old(self).wf(),
            old(self).cur().kind is Ident,
        ensures
            Self::step(old(self), final(self)),
            r is Ok ==> final(self).cursor > old(self).cursor,
            r matches Ok(Command::Notation { precedence, assoc, .. }) ==> precedence is None
                && assoc == NotationAssoc::Nullary,
            r matches Ok(c) ==> (c matches Command::Notation { scope: s, .. } && s == scope),
            r is Ok <==> notation_tail_ok(*old(self), old(self).cursor + 1, NotationAssoc::Nullary, None),
            r matches Ok(Command::Notation { symbol, .. }) ==> symbol@ == symbol_of(
                old(self).tokens@[old(self).cursor + 1],
            ),
    {
        let kw = self.bump();
        if self.at_colon() {
            return Err(
                shape_error(
                    String::from_str(
                        "notation 不写优先级（零元记法没有左右操作数）：写 notation \"∅\" => Set.empty 即可",
                    ),
                    self.peek_span(),
                ),
            );
        }
        let (symbol, _) = self.parse_notation_symbol("notation")?;
        proof {
            lemma_symbol_of(old(self).tokens@[old(self).cursor + 1], symbol@);
        }
        self.expect_notation_arrow("notation")?;
        let target = self.expect_ident("a notation target name")?;
        let span = Span::new(kw.span.start, self.prev_end());
        self.register_notation(
            symbol.clone(),
            None,
            NotationAssoc::Nullary,
            target.clone(),
            clone_opt_string(&scope),
            span,
        )?;
        Ok(
            Command::Notation {
                symbol,
                precedence: None,
                assoc: NotationAssoc::Nullary,
                target,
                scope,
                span,
            },
        )
    }

    /// `binder_notation " sym " => name`: a notation in binder position.
    fn parse_binder_notation_command(&mut self, scope: Option<String>) -> (r: Result<Command>)
        requires
            old(self).wf(),
            old(self).cur().kind is Ident,
        ensures
            Self::step(old(self), final(self)),
            r is Ok ==> final(self).cursor > old(self).cursor,
            r matches Ok(Command::Notation { precedence, assoc, .. }) ==> precedence is None
                && assoc == NotationAssoc::Binder,
            r matches Ok(c) ==> (c matches Command::Notation { scope: s, .. } && s == scope),
            r is Ok <==> notation_tail_ok(*old(self), old(self).cursor + 1, NotationAssoc::Binder, None),
            r matches Ok(Command::Notation { symbol, .. }) ==> symbol@ == symbol_of(
                old(self).tokens@[old(self).cursor + 1],
            ),
    {
        let kw = self.bump();
        if self.at_colon() {
            return Err(
                shape_error(
                    String::from_str(
                        "binder_notation 不写优先级（binder 记法没有左右操作数）：写 binder_notation \"∃\" => Exists 即可",
                    ),
                    self.peek_span(),
                ),
            );
        }
        let (symbol, _) = self.parse_notation_symbol("binder_notation")?;
        proof {
            lemma_symbol_of(old(self).tokens@[old(self).cursor + 1], symbol@);
        }
        self.expect_notation_arrow("binder_notation")?;
        let target = self.expect_ident("a notation target name")?;
        let span = Span::new(kw.span.start, self.prev_end());
        self.register_notation(
            symbol.clone(),
            None,
            NotationAssoc::Binder,
            target.clone(),
            clone_opt_string(&scope),
            span,
        )?;
        Ok(
            Command::Notation {
                symbol,
                precedence: None,
                assoc: NotationAssoc::Binder,
                target,
                scope,
                span,
            },
        )
    }

    /// `:N` with `1 <= N <= 1000`.
    fn parse_notation_precedence(&mut self, keyword: &str) -> (r: Result<u16>)
        requires
            old(self).wf(),
        ensures
            Self::expr_step(old(self), final(self)),
            r matches Ok(n) ==> 1 <= n <= 1000,
            r is Ok <==> (old(self).cur().kind is Colon && (old(self).tokens@[old(self).cursor + 1].kind matches TokenKind::Num(
                t,
            ) && (crate::text::spec_parse_unsigned(t@, u16::MAX as nat) matches Some(n) && 1 <= n <= 1000))),
            r matches Ok(n) ==> (old(self).tokens@[old(self).cursor + 1].kind matches TokenKind::Num(t)
                && crate::text::spec_parse_unsigned(t@, u16::MAX as nat) == Some(n as nat)),
            r is Ok ==> final(self).cursor == old(self).cursor + 2,
    {
        if !self.at_colon() {
            let head = concat5("`", keyword, "` 必须写优先级：", keyword, ":50 \" ∈ \" => Set.mem");
            return Err(shape_error(concat2(head.as_str(), "（N 取 1–1000）"), self.peek_span()));
        }
        self.bump();
        let tok = self.bump();
        let text = match tok.kind {
            TokenKind::Num(t) => t,
            _ => {
                return Err(
                    shape_error(
                        concat3("`", keyword, ":N` 的 N 要是 1–1000 的数字"),
                        tok.span,
                    ),
                );
            },
        };
        let n = match parse_u16(text.as_str()) {
            Some(n) => n,
            None => {
                return Err(
                    shape_error(
                        concat3("优先级 `", text.as_str(), "` 不是合法数字（N 取 1–1000）"),
                        tok.span,
                    ),
                );
            },
        };
        if n < MIN_NOTATION_PRECEDENCE || n > MAX_NOTATION_PRECEDENCE {
            return Err(
                shape_error(
                    concat3(
                        "优先级 ",
                        text.as_str(),
                        " 越界：合法范围是 1–1000（`->` 最松、函数应用最紧）",
                    ),
                    tok.span,
                ),
            );
        }
        Ok(n)
    }

    /// The symbol: a string literal, trimmed, non-empty, not a plain word and
    /// free of what the lexer reads before the symbol table.
    fn parse_notation_symbol(&mut self, keyword: &str) -> (r: Result<(String, Span)>)
        requires
            old(self).wf(),
        ensures
            Self::expr_step(old(self), final(self)),
            r matches Ok((s, _)) ==> s@.len() > 0 && !crate::token::spec_ascii_word(s@)
                && !crate::token::spec_reserved_in_symbol(s@),
            r is Ok <==> (old(self).cur().kind matches TokenKind::Str(raw) && symbol_text_ok(raw@)),
            r matches Ok((s, sp)) ==> (old(self).cur().kind matches TokenKind::Str(raw) && trimmed(raw@, s@))
                && sp == old(self).cur().span,
            r is Ok ==> final(self).cursor == old(self).cursor + 1,
    {
        let tok = self.bump();
        let raw = match tok.kind {
            TokenKind::Str(raw) => raw,
            _ => {
                let head = concat5("`", keyword, "` 的符号要写成字符串字面量（带引号）：", keyword, ":50 \" ∈ \" => Set.mem");
                return Err(shape_error(head, tok.span));
            },
        };
        let symbol = trim(raw.as_str());
        proof {
            assert forall|t: Seq<char>| trimmed(raw@, t) implies t == symbol@ by {
                lemma_trimmed_unique(raw@, t, symbol@);
            }
        }
        if is_empty_str(symbol.as_str()) {
            return Err(
                shape_error(
                    String::from_str(
                        "记法符号不能是空串：写成 infix:50 \" ∈ \" => Set.mem 这样一对引号之间放符号",
                    ),
                    tok.span,
                ),
            );
        }
        if is_ascii_word_symbol(symbol.as_str()) {
            return Err(
                shape_error(
                    concat3(
                        "`",
                        symbol.as_str(),
                        "` 是普通标识符词，不能当记法符号（它会把整个文件里的这个名字都收走）；符号要用数学符号，例如 ∈ / ⊆ / ∅ / 𝒫 / ''",
                    ),
                    tok.span,
                ),
            );
        }
        match lexer_reserved_symbol_char(symbol.as_str()) {
            Some(reserved) => {
                return Err(
                    shape_error(
                        concat3(
                            "`",
                            reserved.as_str(),
                            "` 是语言关键字的一部分（∀ / -> / -- / #check / 字符串引号），不能当记法符号",
                        ),
                        tok.span,
                    ),
                );
            },
            None => {},
        }
        Ok((symbol, tok.span))
    }

    fn expect_notation_arrow(&mut self, keyword: &str) -> (r: Result<()>)
        requires
            old(self).wf(),
        ensures
            Self::expr_step(old(self), final(self)),
            r is Ok <==> old(self).cur().kind is FatArrow,
            r is Ok ==> final(self).cursor == old(self).cursor + 1,
    {
        if self.at_kind_fat_arrow() {
            self.bump();
            Ok(())
        } else {
            let head = concat5("`", keyword, "` 命令要用 `=>` 指向目标名：", keyword, ":50 \" ∈ \" => Set.mem");
            Err(shape_error(head, self.peek_span()))
        }
    }

    /// `import Foo.Bar`: one dotted module name, alone on its line.
    fn parse_import(&mut self) -> (r: Result<Command>)
        requires
            old(self).wf(),
            old(self).cur().kind is Ident,
        ensures
            Self::expr_step(old(self), final(self)),
            r is Ok ==> final(self).cursor > old(self).cursor,
            r matches Ok(c) ==> c is Import,
            r matches Ok(c) ==> notation_prec_ok(c),
            r matches Ok(c) ==> command_well_formed(c),
            r is Ok <==> (old(self).tokens@[old(self).cursor + 1].kind matches TokenKind::Ident(raw) && (old(
                self,
            ).tokens@[old(self).cursor + 2].kind is Eof || old(self).tokens@[old(self).cursor
                + 2].span.start.line != old(self).tokens@[old(self).cursor + 1].span.end.line)
                && crate::module_name::spec_module_name(raw@) is Valid),
            r matches Ok(Command::Import { module, .. }) ==> old(self).tokens@[old(self).cursor + 1].kind
                == TokenKind::Ident(module),
    {
        let start = self.bump().span.start;
        let tok = self.bump();
        let raw = match tok.kind {
            TokenKind::Ident(name) => name,
            TokenKind::Num(raw) => {
                let v = chars_of(raw.as_str());
                let ch = if v.len() > 0 {
                    v[0]
                } else {
                    '0'
                };
                let err = ModuleNameError::BadStart { component: raw.clone(), ch };
                let m = err.message();
                let message = concat3("`import ", raw.as_str(), "`：");
                let message = concat2(message.as_str(), m.as_str());
                return Err(
                    Diagnostic::new(
                        DiagnosticKind::ImportNotAModuleName {
                            module: raw.clone(),
                            message: message.clone(),
                            hint: err.hint(),
                        },
                        tok.span,
                        message,
                    ),
                );
            },
            other => {
                let found = kind_debug(&other);
                return Err(
                    Diagnostic::new(
                        DiagnosticKind::ImportMalformed {
                            detail: concat2("`import` 后面要跟模块名，这里found ", found.as_str()),
                        },
                        tok.span,
                        concat2("`import` 后面要跟模块名，found ", found.as_str()),
                    ),
                );
            },
        };
        let next_span = self.peek_span();
        if !self.at_eof() && next_span.start.line == tok.span.end.line {
            return Err(
                Diagnostic::new(
                    DiagnosticKind::ImportMalformed {
                        detail: concat3("`import ", raw.as_str(), "` 后面还有内容"),
                    },
                    next_span,
                    concat3("`import ", raw.as_str(), "` 后面还有内容：一行只能写一个模块名"),
                ),
            );
        }
        let span = Span::new(start, tok.span.end);
        match ModuleName::parse(raw.as_str()) {
            Ok(_) => Ok(Command::Import { module: raw, span }),
            Err(err) => {
                let m = err.message();
                let message = concat3("`import ", raw.as_str(), "`：");
                let message = concat2(message.as_str(), m.as_str());
                Err(
                    Diagnostic::new(
                        DiagnosticKind::ImportNotAModuleName {
                            module: raw.clone(),
                            message: message.clone(),
                            hint: err.hint(),
                        },
                        span,
                        message,
                    ),
                )
            },
        }
    }

    fn parse_def(&mut self) -> (r: Result<Command>)
        requires
            old(self).wf(),
            old(self).cur().kind is Ident,
        ensures
            Self::expr_step(old(self), final(self)),
            r is Ok ==> final(self).cursor > old(self).cursor,
            r matches Ok(c) ==> c is Def && distinct_names(c->Def_universe@),
            r matches Ok(c) ==> notation_prec_ok(c),
    {
        let start = self.bump().span.start;
        let name = self.expect_decl_name("definition name")?;
        let name = self.qualify_decl_name(name);
        let mut universe = self.parse_universe_params()?;
        let binders = self.parse_decl_binders(&mut universe)?;
        self.expect_kind(&TokenKind::Colon, "definition type")?;
        let ty = self.parse_expr()?;
        self.expect_kind(&TokenKind::ColonEq, "`:=`")?;
        let val = self.parse_value()?;
        let span = Span::new(start, val.span().end);
        let (ty, val) = wrap_decl_binders(binders, ty, val);
        Ok(Command::Def { name, universe, ty, val, span })
    }

    fn parse_theorem(&mut self) -> (r: Result<Command>)
        requires
            old(self).wf(),
            old(self).cur().kind is Ident,
        ensures
            Self::expr_step(old(self), final(self)),
            r is Ok ==> final(self).cursor > old(self).cursor,
            r matches Ok(c) ==> c is Theorem && distinct_names(c->Theorem_universe@),
            r matches Ok(c) ==> notation_prec_ok(c),
    {
        let start = self.bump().span.start;
        let name = self.expect_decl_name("theorem name")?;
        let name = self.qualify_decl_name(name);
        let mut universe = self.parse_universe_params()?;
        let binders = self.parse_decl_binders(&mut universe)?;
        self.expect_kind(&TokenKind::Colon, "theorem statement")?;
        let ty = self.parse_expr()?;
        self.expect_kind(&TokenKind::ColonEq, "`:=`")?;
        let val = self.parse_value()?;
        let span = Span::new(start, val.span().end);
        let (ty, val) = wrap_decl_binders(binders, ty, val);
        Ok(Command::Theorem { name, universe, ty, val, span })
    }

    fn parse_example(&mut self) -> (r: Result<Command>)
        requires
            old(self).wf(),
            old(self).cur().kind is Ident,
        ensures
            Self::expr_step(old(self), final(self)),
            r is Ok ==> final(self).cursor > old(self).cursor,
            r matches Ok(c) ==> c is Example,
            r matches Ok(c) ==> notation_prec_ok(c),
    {
        let start = self.bump().span.start;
        if self.universe_params_ahead() {
            return Err(self.error_here("example 不支持宇宙参数；请改用 theorem 或 def"));
        }
        let mut universe: Vec<String> = Vec::new();
        let binders = self.parse_decl_binders(&mut universe)?;
        self.expect_kind(&TokenKind::Colon, "example type")?;
        let ty = self.parse_expr()?;
        self.expect_kind(&TokenKind::ColonEq, "`:=`")?;
        let val = self.parse_value()?;
        let span = Span::new(start, val.span().end);
        let (ty, val) = wrap_decl_binders(binders, ty, val);
        Ok(Command::Example { ty, val, span })
    }

    /// The binder groups between a declaration's name and its `:`; universe
    /// groups `{u v}` may stand among them and go into `universe`.
    fn parse_decl_binders(&mut self, universe: &mut Vec<String>) -> (r: Result<Vec<Binder>>)
        requires
            old(self).wf(),
            distinct_names(old(universe)@),
        ensures
            Self::expr_step(old(self), final(self)),
            distinct_names(final(universe)@),
            !(old(self).cur().kind is LParen || old(self).cur().kind is LBrace) ==> (r matches Ok(v) && v@.len()
                == 0) && *final(self) == *old(self) && *final(universe) == *old(universe),
            old(self).cur().kind is LParen && !group_rest(old(self).tokens@, old(self).cursor as int) ==> r is Err,
    {
        let mut binders: Vec<Binder> = Vec::new();
        let ghost mut first = true;
        loop
            invariant
                Self::expr_step(old(self), self),
                distinct_names(universe@),
                first ==> *self == *old(self) && binders@.len() == 0 && *universe == *old(universe),
                !first ==> (old(self).cur().kind is LParen || old(self).cur().kind is LBrace) && !(old(
                    self,
                ).cur().kind is LParen && !group_rest(old(self).tokens@, old(self).cursor as int)),
            ensures
                Self::expr_step(old(self), self),
                distinct_names(universe@),
                first ==> *self == *old(self) && binders@.len() == 0 && *universe == *old(universe),
                first ==> !(self.cur().kind is LParen || self.cur().kind is LBrace),
                !first ==> (old(self).cur().kind is LParen || old(self).cur().kind is LBrace) && !(old(
                    self,
                ).cur().kind is LParen && !group_rest(old(self).tokens@, old(self).cursor as int)),
            decreases self.remaining(),
        {
            if self.universe_params_ahead() {
                self.parse_universe_group(universe)?;
                proof {
                    first = false;
                }
                continue ;
            }
            let paren = matches!(self.peek().kind, TokenKind::LParen | TokenKind::LBrace);
            if paren && self.named_group_ahead() {
                self.push_binders(&mut binders)?;
                proof {
                    first = false;
                }
            } else if paren {
                return Err(
                    self.error_here(
                        "声明 binder 需要显式类型，例如 (a : Prop)；不支持无类型的 (a) 写法",
                    ),
                );
            } else {
                break ;
            }
        }
        Ok(binders)
    }

    /// The value position: an expression or a `by` block.
    fn parse_value(&mut self) -> (r: Result<Expr>)
        requires
            old(self).wf(),
        ensures
            Self::expr_step(old(self), final(self)),
            r is Ok ==> final(self).cursor > old(self).cursor,
    {
        if self.at_word("by") {
            return self.parse_by_block();
        }
        self.parse_expr()
    }

    fn parse_axiom(&mut self) -> (r: Result<Command>)
        requires
            old(self).wf(),
            old(self).cur().kind is Ident,
        ensures
            Self::expr_step(old(self), final(self)),
            r is Ok ==> final(self).cursor > old(self).cursor,
            r matches Ok(c) ==> c is Axiom && distinct_names(c->Axiom_universe@),
            r matches Ok(c) ==> notation_prec_ok(c),
    {
        let start = self.bump().span.start;
        let name = self.expect_decl_name("axiom name")?;
        let name = self.qualify_decl_name(name);
        let mut universe = self.parse_universe_params()?;
        let binders = self.parse_decl_binders(&mut universe)?;
        self.expect_kind(&TokenKind::Colon, "axiom type")?;
        let ty = self.parse_expr()?;
        let span = Span::new(start, ty.span().end);
        let ty = wrap_type_binders(binders, ty);
        Ok(Command::Axiom { name, universe, ty, span })
    }

    /// Whether a universe group `{u}` / `{u, v}` / `{u v}` (names only) starts
    /// at the cursor.
    fn universe_params_ahead(&self) -> (r: bool)
        requires
            self.wf(),
        ensures
            r ==> self.cur().kind is LBrace,
            r == (self.cur().kind is LBrace && self.cursor + 1 < self.tokens@.len() && self.tokens@[self.cursor
                + 1].kind is Ident && names_to_brace(self.tokens@, self.cursor + 1)),
    {
        let mut i = self.cursor;
        match self.kind_at(i) {
            Some(TokenKind::LBrace) => {},
            _ => return false,
        }
        if i >= self.tokens.len() - 1 {
            return false;
        }
        i = i + 1;
        match self.kind_at(i) {
            Some(TokenKind::Ident(_)) => {},
            _ => return false,
        }
        loop
            invariant
                self.wf(),
                self.cursor < i < self.tokens@.len(),
                self.cur().kind is LBrace,
                self.tokens@[self.cursor + 1].kind is Ident,
                names_to_brace(self.tokens@, i as int) == names_to_brace(self.tokens@, self.cursor + 1),
            decreases self.tokens@.len() - i,
        {
            if i >= self.tokens.len() - 1 {
                return false;
            }
            i = i + 1;
            match self.kind_at(i) {
                Some(TokenKind::Comma) => {
                    if i >= self.tokens.len() - 1 {
                        return false;
                    }
                    match self.kind_at(i + 1) {
                        Some(TokenKind::Ident(_)) => {},
                        _ => return false,
                    }
                },
                Some(TokenKind::Ident(_)) => {},
                Some(TokenKind::RBrace) => return true,
                _ => return false,
            }
        }
    }

    fn parse_universe_params(&mut self) -> (r: Result<Vec<String>>)
        requires
            old(self).wf(),
        ensures
            Self::expr_step(old(self), final(self)),
            r matches Ok(u) ==> distinct_names(u@),
            !(old(self).cur().kind is LBrace && old(self).cursor + 1 < old(self).tokens@.len() && old(
                self,
            ).tokens@[old(self).cursor + 1].kind is Ident && names_to_brace(old(self).tokens@, old(self).cursor + 1))
                ==> (r matches Ok(u) && u@.len() == 0) && *final(self) == *old(self),
            (old(self).cur().kind is LBrace && old(self).cursor + 1 < old(self).tokens@.len() && old(
                self,
            ).tokens@[old(self).cursor + 1].kind is Ident && names_to_brace(old(self).tokens@, old(self).cursor + 1))
                ==> (r is Ok <==> group_result(old(self).tokens@, old(self).cursor + 1, Seq::empty()) is Some)
                && (r matches Ok(u) ==> group_result(old(self).tokens@, old(self).cursor + 1, Seq::empty())
                == Some(string_views(u@))),
    {
        let mut universe: Vec<String> = Vec::new();
        proof {
            assert(string_views(universe@) =~= Seq::<Seq<char>>::empty());
        }
        if self.universe_params_ahead() {
            self.parse_universe_group(&mut universe)?;
        }
        Ok(universe)
    }

    /// One universe group `{` names `}` (the caller has seen one ahead),
    /// appended to `universe`; a name seen before (in any group) is an error.
    fn parse_universe_group(&mut self, universe: &mut Vec<String>) -> (r: Result<()>)
        requires
            old(self).wf(),
            old(self).cur().kind is LBrace,
            distinct_names(old(universe)@),
        ensures
            Self::expr_step(old(self), final(self)),
            distinct_names(final(universe)@),
            r is Ok ==> final(self).cursor > old(self).cursor,
            r is Ok <==> group_result(old(self).tokens@, old(self).cursor + 1, string_views(old(universe)@)) is Some,
            r is Ok ==> group_result(old(self).tokens@, old(self).cursor + 1, string_views(old(universe)@))
                == Some(string_views(final(universe)@)),
    {
        self.bump();
        loop
            invariant
                Self::expr_step(old(self), self),
                self.cursor > old(self).cursor,
                distinct_names(universe@),
                group_result(self.tokens@, self.cursor as int, string_views(universe@)) == group_result(
                    old(self).tokens@,
                    old(self).cursor + 1,
                    string_views(old(universe)@),
                ),
            decreases self.remaining(),
        {
            let ghost i = self.cursor as int;
            let name = self.expect_ident("universe parameter")?;
            proof {
                let names_seen = string_views(universe@);
                if names_seen.contains(name@) {
                    let k = choose|k: int| 0 <= k < names_seen.len() && names_seen[k] == name@;
                    assert(universe@[k]@ == name@);
                }
                if exists|k: int| 0 <= k < universe@.len() && universe@[k]@ == name@ {
                    let k = choose|k: int| 0 <= k < universe@.len() && universe@[k]@ == name@;
                    assert(names_seen[k] == name@);
                }
            }
            if contains_string(universe, name.as_str()) {
                let msg = concat3("duplicate universe parameter `", name.as_str(), "`");
                return Err(self.error_here_string(msg));
            }
            let ghost before = universe@;
            let ghost nv = name@;
            universe.push(name);
            proof {
                assert(string_views(universe@) =~= string_views(before).push(nv));
            }
            assert forall|i: int, j: int| 0 <= i < j < universe@.len() implies (#[trigger] universe@[i])@
                != (#[trigger] universe@[j])@ by {
                if j < before.len() {
                    assert(universe@[i] == before[i] && universe@[j] == before[j]);
                } else {
                    assert(universe@[i] == before[i]);
                }
            };
            if matches!(self.peek().kind, TokenKind::Ident(_)) {
            } else if self.at_comma() {
                self.bump();
            } else if matches!(self.peek().kind, TokenKind::RBrace) {
                self.bump();
                return Ok(());
            } else {
                return Err(self.error_here("expected `,`, a name or `}` in universe parameters"));
            }
        }
    }

    fn parse_inductive_block(&mut self) -> (r: Result<Command>)
        requires
            old(self).wf(),
            old(self).cur().kind is Ident,
        ensures
            Self::expr_step(old(self), final(self)),
            r is Ok ==> final(self).cursor > old(self).cursor,
            r matches Ok(c) ==> c is InductiveBlock,
            r matches Ok(c) ==> notation_prec_ok(c),
    {
        let start = self.bump().span.start;
        let name = self.expect_decl_name("inductive name")?;
        let name = self.qualify_decl_name(name);
        let params = self.parse_inductive_binders("inductive 参数")?;
        self.expect_kind(&TokenKind::Colon, "inductive type")?;
        let ty = self.parse_expr()?;
        let mut constructors: Vec<CtorDecl> = Vec::new();
        let mut recursor: Option<RecDecl> = None;
        let mut iota_rules: Vec<IotaRule> = Vec::new();
        loop
            invariant
                Self::expr_step(old(self), self),
                self.cursor > old(self).cursor,
            decreases self.remaining(),
        {
            let kw_span = self.peek_span();
            if !matches!(self.peek().kind, TokenKind::Ident(_)) {
                return Err(self.error_here("expected `ctor`, `rec`, `iota` or `end`"));
            }
            if self.at_word("end") {
                self.bump();
                let span = Span::new(start, kw_span.end);
                return Ok(
                    Command::InductiveBlock {
                        name,
                        params,
                        ty,
                        constructors,
                        recursor,
                        iota_rules,
                        span,
                    },
                );
            } else if self.at_word("ctor") {
                let c = self.parse_ctor()?;
                constructors.push(c);
            } else if self.at_word("rec") {
                let c = self.parse_rec()?;
                recursor = Some(c);
            } else if self.at_word("iota") {
                let c = self.parse_iota()?;
                iota_rules.push(c);
            } else {
                return Err(self.error_here("expected `ctor`, `rec`, `iota` or `end`"));
            }
        }
    }

    /// The binder list of `inductive` parameters and `ctor` fields.
    fn parse_inductive_binders(&mut self, what: &str) -> (r: Result<Vec<Binder>>)
        requires
            old(self).wf(),
        ensures
            Self::expr_step(old(self), final(self)),
            !(old(self).cur().kind is LParen || old(self).cur().kind is LBrace) ==> (r matches Ok(v) && v@.len()
                == 0) && *final(self) == *old(self),
            (old(self).cur().kind is LParen || old(self).cur().kind is LBrace) && !group_rest(
                old(self).tokens@,
                old(self).cursor as int,
            ) ==> r is Err,
    {
        let mut binders: Vec<Binder> = Vec::new();
        let ghost mut first = true;
        loop
            invariant
                Self::expr_step(old(self), self),
                first ==> *self == *old(self) && binders@.len() == 0,
                !first ==> (old(self).cur().kind is LParen || old(self).cur().kind is LBrace) && group_rest(
                    old(self).tokens@,
                    old(self).cursor as int,
                ),
            ensures
                Self::expr_step(old(self), self),
                first ==> *self == *old(self) && binders@.len() == 0,
                first ==> !(self.cur().kind is LParen || self.cur().kind is LBrace),
                !first ==> (old(self).cur().kind is LParen || old(self).cur().kind is LBrace) && group_rest(
                    old(self).tokens@,
                    old(self).cursor as int,
                ),
            decreases self.remaining(),
        {
            let paren = matches!(self.peek().kind, TokenKind::LParen | TokenKind::LBrace);
            if paren && self.named_group_ahead() {
                self.push_binders(&mut binders)?;
                proof {
                    first = false;
                }
            } else if paren {
                let msg = concat2(what, " 需要显式类型，例如 (a : Prop)；不支持无类型的 (a) 写法");
                return Err(self.error_here_string(msg));
            } else {
                break ;
            }
        }
        Ok(binders)
    }

    fn parse_ctor(&mut self) -> (r: Result<CtorDecl>)
        requires
            old(self).wf(),
            old(self).cur().kind is Ident,
        ensures
            Self::expr_step(old(self), final(self)),
            r is Ok ==> final(self).cursor > old(self).cursor,
    {
        let start = self.bump().span.start;
        let name = self.expect_decl_name("constructor name")?;
        let binders = self.parse_inductive_binders("constructor 字段")?;
        self.expect_kind(&TokenKind::Colon, "constructor result type")?;
        let result = self.parse_expr()?;
        let span = Span::new(start, result.span().end);
        Ok(CtorDecl { name, binders, result, span })
    }

    fn parse_rec(&mut self) -> (r: Result<RecDecl>)
        requires
            old(self).wf(),
            old(self).cur().kind is Ident,
        ensures
            Self::expr_step(old(self), final(self)),
            r is Ok ==> final(self).cursor > old(self).cursor,
    {
        let start = self.bump().span.start;
        let name = self.expect_decl_name("recursor name")?;
        let universe = self.parse_universe_params()?;
        self.expect_kind(&TokenKind::Colon, "recursor type")?;
        let ty = self.parse_expr()?;
        let span = Span::new(start, ty.span().end);
        Ok(RecDecl { name, universe, ty, span })
    }

    fn parse_iota(&mut self) -> (r: Result<IotaRule>)
        requires
            old(self).wf(),
            old(self).cur().kind is Ident,
        ensures
            Self::expr_step(old(self), final(self)),
            r is Ok ==> final(self).cursor > old(self).cursor,
    {
        let start = self.bump().span.start;
        let ctor_name = self.expect_decl_name("constructor name")?;
        self.expect_kind(&TokenKind::ColonEq, "`:=`")?;
        let val = self.parse_expr()?;
        let span = Span::new(start, val.span().end);
        Ok(IotaRule { ctor_name, val, span })
    }

    fn parse_hash_check(&mut self) -> (r: Result<Command>)
        requires
            old(self).wf(),
            old(self).cur().kind is Ident,
        ensures
            Self::expr_step(old(self), final(self)),
            r is Ok ==> final(self).cursor > old(self).cursor,
            r matches Ok(Command::Check { expr, span }) ==> span.start
                == old(self).cur().span.start && span.end == expr.spec_span().end,
            r matches Ok(c) ==> c is Check,
            r matches Ok(c) ==> notation_prec_ok(c),
    {
        let start = self.bump().span.start;
        let expr = self.parse_expr()?;
        let span = Span::new(start, expr.span().end);
        Ok(Command::Check { expr, span })
    }

    fn parse_hash_reduce(&mut self) -> (r: Result<Command>)
        requires
            old(self).wf(),
            old(self).cur().kind is Ident,
        ensures
            Self::expr_step(old(self), final(self)),
            r is Ok ==> final(self).cursor > old(self).cursor,
            r matches Ok(Command::Reduce { expr, span }) ==> span.start
                == old(self).cur().span.start && span.end == expr.spec_span().end,
            r matches Ok(c) ==> c is Reduce,
            r matches Ok(c) ==> notation_prec_ok(c),
    {
        let start = self.bump().span.start;
        let expr = self.parse_expr()?;
        let span = Span::new(start, expr.span().end);
        Ok(Command::Reduce { expr, span })
    }

    fn parse_hash_print(&mut self) -> (r: Result<Command>)
        requires
            old(self).wf(),
            old(self).cur().kind is Ident,
        ensures
            Self::expr_step(old(self), final(self)),
            r is Ok ==> final(self).cursor > old(self).cursor,
            r matches Ok(c) ==> c is Print,
            r matches Ok(c) ==> notation_prec_ok(c),
            r is Ok <==> old(self).tokens@[old(self).cursor + 1].kind is Ident,
            r matches Ok(Command::Print { name, span }) ==> old(self).tokens@[old(self).cursor + 1].kind
                == TokenKind::Ident(name) && span.start == old(self).cur().span.start && span.end
                == old(self).tokens@[old(self).cursor + 1].span.end,
    {
        let start = self.bump().span.start;
        let name = self.expect_ident("declaration name")?;
        let end = self.prev_end();
        Ok(Command::Print { name, span: Span::new(start, end) })
    }

    // -----------------------------------------------------------------------
    // Small expectations.
    // -----------------------------------------------------------------------

    fn expect_ident(&mut self, what: &str) -> (r: Result<String>)
        requires
            old(self).wf(),
        ensures
            Self::expr_step(old(self), final(self)),
            final(self).saw_at == old(self).saw_at,
            r is Ok <==> old(self).cur().kind is Ident,
            r is Ok ==> final(self).cursor == old(self).cursor + 1,
            r matches Ok(n) ==> old(self).cur().kind == TokenKind::Ident(n),
    {
        let tok = self.bump();
        match tok.kind {
            TokenKind::Ident(name) => Ok(name),
            other => {
                let found = kind_debug(&other);
                let message = concat4("expected ", what, ", found ", found.as_str());
                Err(unexpected(found, what, tok.span, message))
            },
        }
    }

    /// A declaration name: an identifier that does not end with `.`.
    fn expect_decl_name(&mut self, what: &str) -> (r: Result<String>)
        requires
            old(self).wf(),
        ensures
            Self::expr_step(old(self), final(self)),
            r is Ok ==> final(self).cursor == old(self).cursor + 1,
            r matches Ok(n) ==> !(n@.len() > 0 && n@.last() == '.'),
            r is Ok <==> (old(self).cur().kind matches TokenKind::Ident(w) && !(w@.len() > 0 && w@.last()
                == '.')),
            r matches Ok(n) ==> old(self).cur().kind == TokenKind::Ident(n),
    {
        let tok_span = self.peek_span();
        let name = self.expect_ident(what)?;
        if ends_with_char(name.as_str(), '.') {
            let found = concat3("\"", name.as_str(), "\"");
            let message = concat3(
                "声明名不许以 `.` 结尾（这里读到了 `",
                name.as_str(),
                "`）；本语言不支持 `f.{u}` 声明位拼写，请写成 `def f {u} …`",
            );
            return Err(
                unexpected(found, "a declaration name that does not end with `.`", tok_span, message),
            );
        }
        Ok(name)
    }

    fn expect_kind(&mut self, kind: &TokenKind, what: &str) -> (r: Result<()>)
        requires
            old(self).wf(),
        ensures
            Self::expr_step(old(self), final(self)),
            final(self).saw_at == old(self).saw_at,
            r is Ok <==> spec_same_unit(old(self).cur().kind, *kind),
            r is Ok ==> final(self).cursor == old(self).cursor + 1,
            r is Err ==> final(self).cursor == old(self).cursor,
    {
        if same_unit(&self.peek().kind, kind) {
            self.bump();
            Ok(())
        } else {
            let msg = concat2("expected ", what);
            Err(self.error_here_string(msg))
        }
    }
}

/// The index of the first notation entry from `k` on that declares `symbol`.
spec fn entry_index(ns: Seq<NotationEntry>, symbol: Seq<char>, k: int) -> Option<int>
    decreases ns.len() - k,
{
    if k < 0 || k >= ns.len() {
        None
    } else if ns[k].symbol@ == symbol {
        Some(k)
    } else {
        entry_index(ns, symbol, k + 1)
    }
}

/// The associativity and precedence of the primary entry for `symbol`.
spec fn shape_of(ns: Seq<NotationEntry>, symbol: Seq<char>) -> Option<(NotationAssoc, Option<u16>)> {
    match entry_index(ns, symbol, 0) {
        Some(k) => Some((ns[k].assoc, ns[k].precedence)),
        None => None,
    }
}

/// `symbol` is declared, with the associativity `a`.
spec fn declared_as(ns: Seq<NotationEntry>, symbol: Seq<char>, a: NotationAssoc) -> bool {
    shape_of(ns, symbol) matches Some((b, _)) && b == a
}

/// The targets of every entry for `symbol`, in declaration order.
spec fn targets_of(ns: Seq<NotationEntry>, symbol: Seq<char>) -> Seq<Seq<char>>
    decreases ns.len(),
{
    if ns.len() == 0 {
        Seq::empty()
    } else {
        let before = targets_of(ns.drop_last(), symbol);
        if ns.last().symbol@ == symbol {
            before.push(ns.last().target@)
        } else {
            before
        }
    }
}

/// The first index from `i` on that does not hold an identifier token.
spec fn ident_run_end(toks: Seq<Token>, i: int) -> int
    decreases toks.len() - i,
{
    if i < 0 || i >= toks.len() || !(toks[i].kind is Ident) {
        i
    } else {
        ident_run_end(toks, i + 1)
    }
}

/// After the bracket at `cursor`: at least one name and then `:`, the first
/// token after the bracket not being `let`, `match` or `fun`.
spec fn group_rest(toks: Seq<Token>, cursor: int) -> bool {
    let i = cursor + 1;
    let blocked = i < toks.len() && (toks[i].kind matches TokenKind::Ident(n) && (spec_expr_keyword(n@)
        || n@ == "fun"@));
    let e = ident_run_end(toks, i);
    !blocked && e > i && e < toks.len() && toks[e].kind is Colon
}

/// A tactic keyword at the cursor, on a later line than the token before.
spec fn spec_next_line_tactic(p: Parser) -> bool {
    &&& p.cur().kind matches TokenKind::Ident(w) && spec_tactic_keyword(w@)
    &&& p.cur().span.start.line > end_line_before(p.tokens@, p.cursor as int)
}

/// The token at the cursor can start an application argument: not at a
/// tactic boundary inside `by`, and an identifier that is no command or
/// expression keyword (nor `with` inside a scrutinee), a literal, a hole,
/// an opening bracket, `@`, `∀`, a set literal, or a nullary notation.
spec fn spec_starts_atom(p: Parser) -> bool {
    if p.by_depth > 0 && spec_next_line_tactic(p) {
        false
    } else {
        match p.cur().kind {
            TokenKind::Ident(name) => !(spec_reserved_command(name@) || spec_expr_keyword(name@) || (
            p.scrutinee_depth > 0 && name@ == "with"@)),
            TokenKind::Num(_) => true,
            TokenKind::Hole => true,
            TokenKind::LParen => true,
            TokenKind::At => true,
            TokenKind::Forall => true,
            TokenKind::Langle => true,
            TokenKind::LBrace => !group_rest(p.tokens@, p.cursor as int),
            TokenKind::Sym(s) => declared_as(p.notations@, s@, NotationAssoc::Nullary),
            _ => false,
        }
    }
}

/// A name that `finish_ident` takes for a constant: not a sort, `sorry`,
/// nor a name with a trailing `.`.
spec fn plain_name(n: Seq<char>) -> bool {
    &&& n != "Prop"@
    &&& n != "sorry"@
    &&& n != "Type"@
    &&& n != "Sort"@
    &&& !(n.len() > 0 && n.last() == '.')
}

/// From a name at `i`: further names, each `,` followed by a name, up to a
/// closing `}`.
spec fn names_to_brace(toks: Seq<Token>, i: int) -> bool
    decreases toks.len() - i,
{
    if i < 0 || i + 1 >= toks.len() {
        false
    } else {
        match toks[i + 1].kind {
            TokenKind::Comma => i + 2 < toks.len() && toks[i + 2].kind is Ident && names_to_brace(toks, i + 1),
            TokenKind::Ident(_) => names_to_brace(toks, i + 1),
            TokenKind::RBrace => true,
            _ => false,
        }
    }
}

/// The shape of the first pending scoped entry from `k` on for `symbol`.
spec fn pending_shape(ps: Seq<ScopedNotation>, symbol: Seq<char>, k: int) -> Option<
    (NotationAssoc, Option<u16>),
>
    decreases ps.len() - k,
{
    if k < 0 || k >= ps.len() {
        None
    } else if ps[k].entry.symbol@ == symbol {
        Some((ps[k].entry.assoc, ps[k].entry.precedence))
    } else {
        pending_shape(ps, symbol, k + 1)
    }
}

/// Some scope of `scopes` is `s`.
spec fn has_scope(scopes: Seq<String>, s: Seq<char>) -> bool {
    exists|k: int| 0 <= k < scopes.len() && (#[trigger] scopes[k])@ == s
}

/// A notation for `symbol` may be declared: it is not built in, no import
/// brought it, and an earlier declaration of it (active, else pending) has
/// the same shape.
spec fn notation_admitted(p: Parser, symbol: Seq<char>, assoc: NotationAssoc, precedence: Option<u16>) -> bool {
    let earlier = match shape_of(p.notations@, symbol) {
        Some(x) => Some(x),
        None => pending_shape(p.scoped_pending@, symbol, 0),
    };
    &&& !spec_is_builtin(symbol)
    &&& forall|k: int| 0 <= k < p.inherited_symbols@.len() ==> #[trigger] p.inherited_symbols@[k]@ != symbol
    &&& (earlier matches Some((a, q)) ==> a == assoc && q == precedence)
}

/// The names of a universe group from index `i` on, added to `seen`: each
/// name new, names separated by `,` or by nothing, up to `}`; `None` where
/// the group is malformed or repeats a name.
spec fn group_result(toks: Seq<Token>, i: int, seen: Seq<Seq<char>>) -> Option<Seq<Seq<char>>>
    decreases toks.len() - i,
{
    if i < 0 || i >= toks.len() {
        None
    } else {
        match toks[i].kind {
            TokenKind::Ident(n) => if seen.contains(n@) || i + 1 >= toks.len() {
                None
            } else {
                match toks[i + 1].kind {
                    TokenKind::Ident(_) => group_result(toks, i + 1, seen.push(n@)),
                    TokenKind::Comma => group_result(toks, i + 2, seen.push(n@)),
                    TokenKind::RBrace => Some(seen.push(n@)),
                    _ => None,
                }
            },
            _ => None,
        }
    }
}

/// A short name of a clause list: an identifier that is no namespace
/// keyword, `in`, `hiding` or `renaming`.
pub open spec fn spec_short_name_at(t: Token) -> bool {
    t.kind matches TokenKind::Ident(n) && !spec_namespace_name_keyword(n@) && n@ != "in"@ && n@
        != "hiding"@ && n@ != "renaming"@
}

/// A token that can start a pattern atom: a name other than `if`, a
/// number, or `(`.
spec fn pattern_atom_start(t: Token) -> bool {
    (t.kind matches TokenKind::Ident(w) && w@ != "if"@) || t.kind is Num || t.kind is LParen
}

/// The symbol that a string token declares: its trimmed text.
spec fn symbol_of(t: Token) -> Seq<char> {
    match t.kind {
        TokenKind::Str(raw) => choose|s: Seq<char>| trimmed(raw@, s),
        _ => Seq::empty(),
    }
}

/// From index `i`: a usable symbol string, `=>`, a target name, and the
/// symbol may be declared with this shape.
spec fn notation_tail_ok(p: Parser, i: int, assoc: NotationAssoc, precedence: Option<u16>) -> bool {
    &&& p.tokens@[i].kind matches TokenKind::Str(raw) && symbol_text_ok(raw@)
    &&& p.tokens@[i + 1].kind is FatArrow
    &&& p.tokens@[i + 2].kind is Ident
    &&& notation_admitted(p, symbol_of(p.tokens@[i]), assoc, precedence)
}

/// The associativity that an `infix`, `infixl` or `infixr` keyword gives.
spec fn infix_assoc(t: Token) -> NotationAssoc {
    if t.kind matches TokenKind::Ident(w) && w@ == "infix"@ {
        NotationAssoc::Infix
    } else if t.kind matches TokenKind::Ident(w) && w@ == "infixl"@ {
        NotationAssoc::Infixl
    } else {
        NotationAssoc::Infixr
    }
}

/// The tactic words differ from one another.
proof fn lemma_tactic_words_differ()
    ensures
        "intro"@ != "exact"@,
        "intro"@ != "apply"@,
        "intro"@ != "assumption"@,
        "intro"@ != "rfl"@,
        "intro"@ != "match"@,
        "intro"@ != "constructor"@,
        "intro"@ != "left"@,
        "intro"@ != "right"@,
        "intro"@ != "exfalso"@,
        "intro"@ != "have"@,
        "intro"@ != "use"@,
        "intro"@ != "cases"@,
        "intro"@ != "sorry"@,
        "exact"@ != "intro"@,
        "exact"@ != "apply"@,
        "exact"@ != "assumption"@,
        "exact"@ != "rfl"@,
        "exact"@ != "match"@,
        "exact"@ != "constructor"@,
        "exact"@ != "left"@,
        "exact"@ != "right"@,
        "exact"@ != "exfalso"@,
        "exact"@ != "have"@,
        "exact"@ != "use"@,
        "exact"@ != "cases"@,
        "exact"@ != "sorry"@,
        "apply"@ != "intro"@,
        "apply"@ != "exact"@,
        "apply"@ != "assumption"@,
        "apply"@ != "rfl"@,
        "apply"@ != "match"@,
        "apply"@ != "constructor"@,
        "apply"@ != "left"@,
        "apply"@ != "right"@,
        "apply"@ != "exfalso"@,
        "apply"@ != "have"@,
        "apply"@ != "use"@,
        "apply"@ != "cases"@,
        "apply"@ != "sorry"@,
        "assumption"@ != "intro"@,
        "assumption"@ != "exact"@,
        "assumption"@ != "apply"@,
        "assumption"@ != "rfl"@,
        "assumption"@ != "match"@,
        "assumption"@ != "constructor"@,
        "assumption"@ != "left"@,
        "assumption"@ != "right"@,
        "assumption"@ != "exfalso"@,
        "assumption"@ != "have"@,
        "assumption"@ != "use"@,
        "assumption"@ != "cases"@,
        "assumption"@ != "sorry"@,
        "rfl"@ != "intro"@,
        "rfl"@ != "exact"@,
        "rfl"@ != "apply"@,
        "rfl"@ != "assumption"@,
        "rfl"@ != "match"@,
        "rfl"@ != "constructor"@,
        "rfl"@ != "left"@,
        "rfl"@ != "right"@,
        "rfl"@ != "exfalso"@,
        "rfl"@ != "have"@,
        "rfl"@ != "use"@,
        "rfl"@ != "cases"@,
        "rfl"@ != "sorry"@,
        "match"@ != "intro"@,
        "match"@ != "exact"@,
        "match"@ != "apply"@,
        "match"@ != "assumption"@,
        "match"@ != "rfl"@,
        "match"@ != "constructor"@,
        "match"@ != "left"@,
        "match"@ != "right"@,
        "match"@ != "exfalso"@,
        "match"@ != "have"@,
        "match"@ != "use"@,
        "match"@ != "cases"@,
        "match"@ != "sorry"@,
        "constructor"@ != "intro"@,
        "constructor"@ != "exact"@,
        "constructor"@ != "apply"@,
        "constructor"@ != "assumption"@,
        "constructor"@ != "rfl"@,
        "constructor"@ != "match"@,
        "constructor"@ != "left"@,
        "constructor"@ != "right"@,
        "constructor"@ != "exfalso"@,
        "constructor"@ != "have"@,
        "constructor"@ != "use"@,
        "constructor"@ != "cases"@,
        "constructor"@ != "sorry"@,
        "left"@ != "intro"@,
        "left"@ != "exact"@,
        "left"@ != "apply"@,
        "left"@ != "assumption"@,
        "left"@ != "rfl"@,
        "left"@ != "match"@,
        "left"@ != "constructor"@,
        "left"@ != "right"@,
        "left"@ != "exfalso"@,
        "left"@ != "have"@,
        "left"@ != "use"@,
        "left"@ != "cases"@,
        "left"@ != "sorry"@,
        "right"@ != "intro"@,
        "right"@ != "exact"@,
        "right"@ != "apply"@,
        "right"@ != "assumption"@,
        "right"@ != "rfl"@,
        "right"@ != "match"@,
        "right"@ != "constructor"@,
        "right"@ != "left"@,
        "right"@ != "exfalso"@,
        "right"@ != "have"@,
        "right"@ != "use"@,
        "right"@ != "cases"@,
        "right"@ != "sorry"@,
        "exfalso"@ != "intro"@,
        "exfalso"@ != "exact"@,
        "exfalso"@ != "apply"@,
        "exfalso"@ != "assumption"@,
        "exfalso"@ != "rfl"@,
        "exfalso"@ != "match"@,
        "exfalso"@ != "constructor"@,
        "exfalso"@ != "left"@,
        "exfalso"@ != "right"@,
        "exfalso"@ != "have"@,
        "exfalso"@ != "use"@,
        "exfalso"@ != "cases"@,
        "exfalso"@ != "sorry"@,
        "have"@ != "intro"@,
        "have"@ != "exact"@,
        "have"@ != "apply"@,
        "have"@ != "assumption"@,
        "have"@ != "rfl"@,
        "have"@ != "match"@,
        "have"@ != "constructor"@,
        "have"@ != "left"@,
        "have"@ != "right"@,
        "have"@ != "exfalso"@,
        "have"@ != "use"@,
        "have"@ != "cases"@,
        "have"@ != "sorry"@,
        "use"@ != "intro"@,
        "use"@ != "exact"@,
        "use"@ != "apply"@,
        "use"@ != "assumption"@,
        "use"@ != "rfl"@,
        "use"@ != "match"@,
        "use"@ != "constructor"@,
        "use"@ != "left"@,
        "use"@ != "right"@,
        "use"@ != "exfalso"@,
        "use"@ != "have"@,
        "use"@ != "cases"@,
        "use"@ != "sorry"@,
        "cases"@ != "intro"@,
        "cases"@ != "exact"@,
        "cases"@ != "apply"@,
        "cases"@ != "assumption"@,
        "cases"@ != "rfl"@,
        "cases"@ != "match"@,
        "cases"@ != "constructor"@,
        "cases"@ != "left"@,
        "cases"@ != "right"@,
        "cases"@ != "exfalso"@,
        "cases"@ != "have"@,
        "cases"@ != "use"@,
        "cases"@ != "sorry"@,
        "sorry"@ != "intro"@,
        "sorry"@ != "exact"@,
        "sorry"@ != "apply"@,
        "sorry"@ != "assumption"@,
        "sorry"@ != "rfl"@,
        "sorry"@ != "match"@,
        "sorry"@ != "constructor"@,
        "sorry"@ != "left"@,
        "sorry"@ != "right"@,
        "sorry"@ != "exfalso"@,
        "sorry"@ != "have"@,
        "sorry"@ != "use"@,
        "sorry"@ != "cases"@,
{
    reveal_strlit("intro");
    reveal_strlit("exact");
    reveal_strlit("apply");
    reveal_strlit("assumption");
    reveal_strlit("rfl");
    reveal_strlit("match");
    reveal_strlit("constructor");
    reveal_strlit("left");
    reveal_strlit("right");
    reveal_strlit("exfalso");
    reveal_strlit("have");
    reveal_strlit("use");
    reveal_strlit("cases");
    reveal_strlit("sorry");
    assert("intro"@[0] != "exact"@[0]);
    assert("intro"@[0] != "apply"@[0]);
    assert("intro"@.len() != "assumption"@.len());
    assert("intro"@.len() != "rfl"@.len());
    assert("intro"@[0] != "match"@[0]);
    assert("intro"@.len() != "constructor"@.len());
    assert("intro"@.len() != "left"@.len());
    assert("intro"@[0] != "right"@[0]);
    assert("intro"@.len() != "exfalso"@.len());
    assert("intro"@.len() != "have"@.len());
    assert("intro"@.len() != "use"@.len());
    assert("intro"@[0] != "cases"@[0]);
    assert("intro"@[0] != "sorry"@[0]);
    assert("exact"@[0] != "intro"@[0]);
    assert("exact"@[0] != "apply"@[0]);
    assert("exact"@.len() != "assumption"@.len());
    assert("exact"@.len() != "rfl"@.len());
    assert("exact"@[0] != "match"@[0]);
    assert("exact"@.len() != "constructor"@.len());
    assert("exact"@.len() != "left"@.len());
    assert("exact"@[0] != "right"@[0]);
    assert("exact"@.len() != "exfalso"@.len());
    assert("exact"@.len() != "have"@.len());
    assert("exact"@.len() != "use"@.len());
    assert("exact"@[0] != "cases"@[0]);
    assert("exact"@[0] != "sorry"@[0]);
    assert("apply"@[0] != "intro"@[0]);
    assert("apply"@[0] != "exact"@[0]);
    assert("apply"@.len() != "assumption"@.len());
    assert("apply"@.len() != "rfl"@.len());
    assert("apply"@[0] != "match"@[0]);
    assert("apply"@.len() != "constructor"@.len());
    assert("apply"@.len() != "left"@.len());
    assert("apply"@[0] != "right"@[0]);
    assert("apply"@.len() != "exfalso"@.len());
    assert("apply"@.len() != "have"@.len());
    assert("apply"@.len() != "use"@.len());
    assert("apply"@[0] != "cases"@[0]);
    assert("apply"@[0] != "sorry"@[0]);
    assert("assumption"@.len() != "intro"@.len());
    assert("assumption"@.len() != "exact"@.len());
    assert("assumption"@.len() != "apply"@.len());
    assert("assumption"@.len() != "rfl"@.len());
    assert("assumption"@.len() != "match"@.len());
    assert("assumption"@.len() != "constructor"@.len());
    assert("assumption"@.len() != "left"@.len());
    assert("assumption"@.len() != "right"@.len());
    assert("assumption"@.len() != "exfalso"@.len());
    assert("assumption"@.len() != "have"@.len());
    assert("assumption"@.len() != "use"@.len());
    assert("assumption"@.len() != "cases"@.len());
    assert("assumption"@.len() != "sorry"@.len());
    assert("rfl"@.len() != "intro"@.len());
    assert("rfl"@.len() != "exact"@.len());
    assert("rfl"@.len() != "apply"@.len());
    assert("rfl"@.len() != "assumption"@.len());
    assert("rfl"@.len() != "match"@.len());
    assert("rfl"@.len() != "constructor"@.len());
    assert("rfl"@.len() != "left"@.len());
    assert("rfl"@.len() != "right"@.len());
    assert("rfl"@.len() != "exfalso"@.len());
    assert("rfl"@.len() != "have"@.len());
    assert("rfl"@[0] != "use"@[0]);
    assert("rfl"@.len() != "cases"@.len());
    assert("rfl"@.len() != "sorry"@.len());
    assert("match"@[0] != "intro"@[0]);
    assert("match"@[0] != "exact"@[0]);
    assert("match"@[0] != "apply"@[0]);
    assert("match"@.len() != "assumption"@.len());
    assert("match"@.len() != "rfl"@.len());
    assert("match"@.len() != "constructor"@.len());
    assert("match"@.len() != "left"@.len());
    assert("match"@[0] != "right"@[0]);
    assert("match"@.len() != "exfalso"@.len());
    assert("match"@.len() != "have"@.len());
    assert("match"@.len() != "use"@.len());
    assert("match"@[0] != "cases"@[0]);
    assert("match"@[0] != "sorry"@[0]);
    assert("constructor"@.len() != "intro"@.len());
    assert("constructor"@.len() != "exact"@.len());
    assert("constructor"@.len() != "apply"@.len());
    assert("constructor"@.len() != "assumption"@.len());
    assert("constructor"@.len() != "rfl"@.len());
    assert("constructor"@.len() != "match"@.len());
    assert("constructor"@.len() != "left"@.len());
    assert("constructor"@.len() != "right"@.len());
    assert("constructor"@.len() != "exfalso"@.len());
    assert("constructor"@.len() != "have"@.len());
    assert("constructor"@.len() != "use"@.len());
    assert("constructor"@.len() != "cases"@.len());
    assert("constructor"@.len() != "sorry"@.len());
    assert("left"@.len() != "intro"@.len());
    assert("left"@.len() != "exact"@.len());
    assert("left"@.len() != "apply"@.len());
    assert("left"@.len() != "assumption"@.len());
    assert("left"@.len() != "rfl"@.len());
    assert("left"@.len() != "match"@.len());
    assert("left"@.len() != "constructor"@.len());
    assert("left"@.len() != "right"@.len());
    assert("left"@.len() != "exfalso"@.len());
    assert("left"@[0] != "have"@[0]);
    assert("left"@.len() != "use"@.len());
    assert("left"@.len() != "cases"@.len());
    assert("left"@.len() != "sorry"@.len());
    assert("right"@[0] != "intro"@[0]);
    assert("right"@[0] != "exact"@[0]);
    assert("right"@[0] != "apply"@[0]);
    assert("right"@.len() != "assumption"@.len());
    assert("right"@.len() != "rfl"@.len());
    assert("right"@[0] != "match"@[0]);
    assert("right"@.len() != "constructor"@.len());
    assert("right"@.len() != "left"@.len());
    assert("right"@.len() != "exfalso"@.len());
    assert("right"@.len() != "have"@.len());
    assert("right"@.len() != "use"@.len());
    assert("right"@[0] != "cases"@[0]);
    assert("right"@[0] != "sorry"@[0]);
    assert("exfalso"@.len() != "intro"@.len());
    assert("exfalso"@.len() != "exact"@.len());
    assert("exfalso"@.len() != "apply"@.len());
    assert("exfalso"@.len() != "assumption"@.len());
    assert("exfalso"@.len() != "rfl"@.len());
    assert("exfalso"@.len() != "match"@.len());
    assert("exfalso"@.len() != "constructor"@.len());
    assert("exfalso"@.len() != "left"@.len());
    assert("exfalso"@.len() != "right"@.len());
    assert("exfalso"@.len() != "have"@.len());
    assert("exfalso"@.len() != "use"@.len());
    assert("exfalso"@.len() != "cases"@.len());
    assert("exfalso"@.len() != "sorry"@.len());
    assert("have"@.len() != "intro"@.len());
    assert("have"@.len() != "exact"@.len());
    assert("have"@.len() != "apply"@.len());
    assert("have"@.len() != "assumption"@.len());
    assert("have"@.len() != "rfl"@.len());
    assert("have"@.len() != "match"@.len());
    assert("have"@.len() != "constructor"@.len());
    assert("have"@[0] != "left"@[0]);
    assert("have"@.len() != "right"@.len());
    assert("have"@.len() != "exfalso"@.len());
    assert("have"@.len() != "use"@.len());
    assert("have"@.len() != "cases"@.len());
    assert("have"@.len() != "sorry"@.len());
    assert("use"@.len() != "intro"@.len());
    assert("use"@.len() != "exact"@.len());
    assert("use"@.len() != "apply"@.len());
    assert("use"@.len() != "assumption"@.len());
    assert("use"@[0] != "rfl"@[0]);
    assert("use"@.len() != "match"@.len());
    assert("use"@.len() != "constructor"@.len());
    assert("use"@.len() != "left"@.len());
    assert("use"@.len() != "right"@.len());
    assert("use"@.len() != "exfalso"@.len());
    assert("use"@.len() != "have"@.len());
    assert("use"@.len() != "cases"@.len());
    assert("use"@.len() != "sorry"@.len());
    assert("cases"@[0] != "intro"@[0]);
    assert("cases"@[0] != "exact"@[0]);
    assert("cases"@[0] != "apply"@[0]);
    assert("cases"@.len() != "assumption"@.len());
    assert("cases"@.len() != "rfl"@.len());
    assert("cases"@[0] != "match"@[0]);
    assert("cases"@.len() != "constructor"@.len());
    assert("cases"@.len() != "left"@.len());
    assert("cases"@[0] != "right"@[0]);
    assert("cases"@.len() != "exfalso"@.len());
    assert("cases"@.len() != "have"@.len());
    assert("cases"@.len() != "use"@.len());
    assert("cases"@[0] != "sorry"@[0]);
    assert("sorry"@[0] != "intro"@[0]);
    assert("sorry"@[0] != "exact"@[0]);
    assert("sorry"@[0] != "apply"@[0]);
    assert("sorry"@.len() != "assumption"@.len());
    assert("sorry"@.len() != "rfl"@.len());
    assert("sorry"@[0] != "match"@[0]);
    assert("sorry"@.len() != "constructor"@.len());
    assert("sorry"@.len() != "left"@.len());
    assert("sorry"@[0] != "right"@[0]);
    assert("sorry"@.len() != "exfalso"@.len());
    assert("sorry"@.len() != "have"@.len());
    assert("sorry"@.len() != "use"@.len());
    assert("sorry"@[0] != "cases"@[0]);
}

/// The token is the word `w`.
pub open spec fn word_at(t: Token, w: Seq<char>) -> bool {
    t.kind matches TokenKind::Ident(x) && x@ == w
}

/// The words that start a tactic.
pub open spec fn tactic_word(w: Seq<char>) -> bool {
    w == "intro"@ || w == "exact"@ || w == "apply"@ || w == "assumption"@ || w == "rfl"@ || w == "match"@ || w
        == "constructor"@ || w == "left"@ || w == "right"@ || w == "exfalso"@ || w == "have"@ || w == "use"@
        || w == "cases"@ || w == "sorry"@
}

/// The names after `intro` from index `k` on: identifiers up to the first
/// token that is not one or is a tactic keyword.
pub open spec fn intro_names(toks: Seq<Token>, k: int) -> Seq<Seq<char>>
    decreases toks.len() - k,
{
    if k < 0 || k >= toks.len() {
        Seq::empty()
    } else if toks[k].kind matches TokenKind::Ident(n) && !spec_tactic_keyword(n@) {
        seq![toks[k].kind->Ident_0@] + intro_names(toks, k + 1)
    } else {
        Seq::empty()
    }
}

/// The end line of the token before `cursor` (0 at the start).
spec fn end_line_before(toks: Seq<Token>, cursor: int) -> usize {
    if cursor <= 0 {
        0
    } else {
        toks[cursor - 1].span.end.line
    }
}

fn clone_opt_string(s: &Option<String>) -> (r: Option<String>)
    ensures
        r == *s,
{
    match s {
        Some(x) => Some(x.clone()),
        None => None,
    }
}

impl Parser {
    // -----------------------------------------------------------------------
    // Lookahead.
    // -----------------------------------------------------------------------

    /// The end line of the last consumed token (0 before the first).
    fn last_token_end_line(&self) -> (r: usize)
        requires
            self.wf(),
        ensures
            r == end_line_before(self.tokens@, self.cursor as int),
    {
        if self.cursor == 0 {
            return 0;
        }
        self.tokens[self.cursor - 1].span.end.line
    }

    fn tactic_keyword_ahead(&self) -> (r: bool)
        requires
            self.wf(),
        ensures
            r == (self.cur().kind matches TokenKind::Ident(w) && spec_tactic_keyword(w@)),
    {
        match &self.peek().kind {
            TokenKind::Ident(kw) => is_tactic_keyword(kw.as_str()),
            _ => false,
        }
    }

    /// A tactic keyword on a later line than the last consumed token: the
    /// boundary between two tactics.
    fn next_line_starts_a_tactic(&self) -> (r: bool)
        requires
            self.wf(),
        ensures
            r ==> (self.cur().kind matches TokenKind::Ident(w) && spec_tactic_keyword(w@)),
            r == spec_next_line_tactic(*self),
    {
        self.tactic_keyword_ahead() && self.peek_span().start.line > self.last_token_end_line()
    }

    /// `(a b : T)` / `{a b : T}` ahead (a binder group, not an expression).
    fn named_group_ahead(&self) -> (r: bool)
        requires
            self.wf(),
        ensures
            r ==> (self.cur().kind is LParen || self.cur().kind is LBrace),
            r == ((self.cur().kind is LParen || self.cur().kind is LBrace) && group_rest(
                self.tokens@,
                self.cursor as int,
            )),
    {
        match self.kind_at(self.cursor) {
            Some(TokenKind::LParen) | Some(TokenKind::LBrace) => {},
            _ => return false,
        }
        self.group_rest_ahead()
    }

    /// After an opening bracket at the cursor: at least one name, then `:`;
    /// `let`/`match`/`fun` right after the bracket make it an expression.
    fn group_rest_ahead(&self) -> (r: bool)
        requires
            self.wf(),
        ensures
            r == group_rest(self.tokens@, self.cursor as int),
    {
        let mut i = self.cursor + 1;
        match self.kind_at(i) {
            Some(TokenKind::Ident(name)) => {
                if is_expr_keyword(name.as_str()) || str_eq(name.as_str(), "fun") {
                    return false;
                }
            },
            _ => {},
        }
        let mut saw_ident = false;
        while i < self.tokens.len() && matches!(self.tokens[i].kind, TokenKind::Ident(_))
            invariant
                self.wf(),
                self.cursor + 1 <= i <= self.tokens@.len(),
                saw_ident == (i > self.cursor + 1),
                ident_run_end(self.tokens@, i as int) == ident_run_end(self.tokens@, self.cursor + 1),
                !(self.cursor + 1 < self.tokens@.len() && (self.tokens@[self.cursor + 1].kind matches TokenKind::Ident(n)
                    && (spec_expr_keyword(n@) || n@ == "fun"@))),
            decreases self.tokens@.len() - i,
        {
            saw_ident = true;
            i = i + 1;
        }
        saw_ident && matches!(self.kind_at(i), Some(TokenKind::Colon))
    }

    /// `{x : T}` / `{x y : T}` ahead.
    fn brace_binder_ahead(&self) -> (r: bool)
        requires
            self.wf(),
        ensures
            r == (self.cur().kind is LBrace && group_rest(self.tokens@, self.cursor as int)),
    {
        match self.kind_at(self.cursor) {
            Some(TokenKind::LBrace) => {},
            _ => return false,
        }
        self.group_rest_ahead()
    }

    /// A set literal `{a}` / `{a, b}` ahead (a brace that is not a binder).
    fn set_literal_ahead(&self) -> (r: bool)
        requires
            self.wf(),
        ensures
            r ==> self.cur().kind is LBrace,
            r == (self.cur().kind is LBrace && !group_rest(self.tokens@, self.cursor as int)),
    {
        if !matches!(self.peek().kind, TokenKind::LBrace) {
            return false;
        }
        !self.brace_binder_ahead()
    }

    /// More than one name in the group that starts at the cursor.
    fn multi_name_group_ahead(&self) -> (r: bool)
        requires
            self.wf(),
        ensures
            r == (ident_run_end(self.tokens@, self.cursor + 1) > self.cursor + 2),
    {
        let mut i = self.cursor + 1;
        let mut count: usize = 0;
        while i < self.tokens.len() && matches!(self.tokens[i].kind, TokenKind::Ident(_))
            invariant
                self.wf(),
                count <= i,
                self.cursor + 1 <= i <= self.tokens@.len(),
                count == i - (self.cursor + 1),
                ident_run_end(self.tokens@, i as int) == ident_run_end(self.tokens@, self.cursor + 1),
            decreases self.tokens@.len() - i,
        {
            count = count + 1;
            i = i + 1;
        }
        count > 1
    }

    /// Whether the current token can start an application argument.
    fn starts_atom(&self) -> (r: bool)
        requires
            self.wf(),
        ensures
            r ==> !(self.cur().kind is Eof),
            r == spec_starts_atom(*self),
    {
        if self.by_depth > 0 && self.next_line_starts_a_tactic() {
            return false;
        }
        match &self.peek().kind {
            TokenKind::Ident(name) => {
                let blocks_match = self.scrutinee_depth > 0 && str_eq(name.as_str(), "with");
                !(is_reserved_command(name.as_str()) || is_expr_keyword(name.as_str())
                    || blocks_match)
            },
            TokenKind::Num(_) | TokenKind::Hole | TokenKind::LParen | TokenKind::At => true,
            TokenKind::Forall => true,
            TokenKind::LBrace => self.set_literal_ahead(),
            TokenKind::Langle => true,
            TokenKind::Sym(symbol) => match self.notation_shape(symbol.as_str()) {
                Some((a, _)) => a == NotationAssoc::Nullary,
                None => false,
            },
            _ => false,
        }
    }

    /// A declared prefix notation symbol at the cursor.
    fn prefix_notation_ahead(&self) -> (r: bool)
        requires
            self.wf(),
        ensures
            r ==> self.cur().kind is Sym,
            r == (self.cur().kind matches TokenKind::Sym(s) && declared_as(
                self.notations@,
                s@,
                NotationAssoc::Prefix,
            )),
    {
        match &self.peek().kind {
            TokenKind::Sym(symbol) => match self.notation_shape(symbol.as_str()) {
                Some((a, _)) => a == NotationAssoc::Prefix,
                None => false,
            },
            _ => false,
        }
    }

    /// `∀` or a declared binder notation at the cursor.
    fn leading_binder_ahead(&self) -> (r: bool)
        requires
            self.wf(),
        ensures
            r == (self.cur().kind is Forall || (self.cur().kind matches TokenKind::Sym(s) && declared_as(
                self.notations@,
                s@,
                NotationAssoc::Binder,
            ))),
    {
        match &self.peek().kind {
            TokenKind::Forall => true,
            TokenKind::Sym(symbol) => self.is_binder_notation(symbol.as_str()),
            _ => false,
        }
    }

    /// A declared binary notation symbol at the cursor (the relation of a
    /// two-stage binder `x ∈ s`).
    fn binder_guard_ahead(&self) -> (r: bool)
        requires
            self.wf(),
        ensures
            r == (self.cur().kind matches TokenKind::Sym(s) && (shape_of(self.notations@, s@) matches Some(
                (a, _),
            ) && a.spec_is_binary())),
    {
        match &self.peek().kind {
            TokenKind::Sym(symbol) => match self.notation_shape(symbol.as_str()) {
                Some((a, _)) => a.is_binary(),
                None => false,
            },
            _ => false,
        }
    }

    /// The binary operator at the cursor, if its precedence is at least
    /// `min_precedence`.
    fn binary_op_ahead(&self, min_precedence: u16) -> (r: Option<BinaryOp>)
        requires
            self.wf(),
        ensures
            r matches Some(op) ==> op.precedence >= min_precedence && op.precedence < u16::MAX
                && op.assoc.spec_is_binary() && (self.cur().kind is Plus || self.cur().kind is Sym),
            self.cur().kind is Plus ==> (r is Some <==> PLUS_PRECEDENCE >= min_precedence),
            self.cur().kind is Plus ==> (r matches Some(op) ==> op.precedence == PLUS_PRECEDENCE
                && op.assoc == NotationAssoc::Infixl && op.symbol@ == "+"@ && op.builtin_plus),
            self.cur().kind matches TokenKind::Sym(s) ==> (r is Some <==> (shape_of(self.notations@, s@) matches Some(
                (a, Some(p)),
            ) && a.spec_is_binary() && p >= min_precedence)),
            self.cur().kind matches TokenKind::Sym(s) ==> (r matches Some(op) ==> shape_of(self.notations@, s@)
                == Some((op.assoc, Some(op.precedence))) && op.symbol == s && !op.builtin_plus),
            !(self.cur().kind is Plus || self.cur().kind is Sym) ==> r is None,
    {
        let op = match &self.peek().kind {
            TokenKind::Plus => BinaryOp {
                precedence: PLUS_PRECEDENCE,
                assoc: NotationAssoc::Infixl,
                symbol: String::from_str("+"),
                builtin_plus: true,
            },
            TokenKind::Sym(symbol) => {
                match self.notation_shape(symbol.as_str()) {
                    Some((assoc, Some(precedence))) => {
                        if !assoc.is_binary() {
                            return None;
                        }
                        BinaryOp { precedence, assoc, symbol: symbol.clone(), builtin_plus: false }
                    },
                    _ => return None,
                }
            },
            _ => return None,
        };
        if op.precedence >= min_precedence {
            Some(op)
        } else {
            None
        }
    }

    /// The postfix notation at the cursor, if it binds at `min_precedence`.
    fn postfix_ahead(&self, min_precedence: u16) -> (r: Option<String>)
        requires
            self.wf(),
        ensures
            r is Some ==> self.cur().kind is Sym,
            r == (match self.cur().kind {
                TokenKind::Sym(s) => if (shape_of(self.notations@, s@) matches Some((a, Some(p))) && a
                    == NotationAssoc::Postfix && p >= min_precedence) {
                    Some(s)
                } else {
                    None
                },
                _ => None,
            }),
    {
        match &self.peek().kind {
            TokenKind::Sym(symbol) => match self.notation_shape(symbol.as_str()) {
                Some((NotationAssoc::Postfix, Some(p))) => {
                    if p >= min_precedence {
                        Some(symbol.clone())
                    } else {
                        None
                    }
                },
                _ => None,
            },
            _ => None,
        }
    }

    // -----------------------------------------------------------------------
    // Expressions.
    // -----------------------------------------------------------------------

    fn parse_expr(&mut self) -> (r: Result<Expr>)
        requires
            old(self).wf(),
        ensures
            Self::expr_step(old(self), final(self)),
            r is Ok ==> final(self).cursor > old(self).cursor,
        decreases old(self).remaining(), 15nat,
    {
        if matches!(self.peek().kind, TokenKind::Forall) {
            return self.parse_forall();
        }
        let binder_sym = match &self.peek().kind {
            TokenKind::Sym(symbol) => self.is_binder_notation(symbol.as_str()),
            _ => false,
        };
        if binder_sym {
            return self.parse_binder_notation();
        }
        if self.at_word("fun") {
            return self.parse_lambda();
        }
        if self.at_word("let") {
            return self.parse_let();
        }
        if self.at_word("match") {
            return self.parse_match();
        }
        self.parse_arrow()
    }

    /// `let x : T := v; body` (the type may be left out).
    fn parse_let(&mut self) -> (r: Result<Expr>)
        requires
            old(self).wf(),
            old(self).cur().kind is Ident,
        ensures
            Self::expr_step(old(self), final(self)),
            r is Ok ==> final(self).cursor > old(self).cursor,
            r matches Ok(e) ==> e is Let,
        decreases old(self).remaining(), 10nat,
    {
        let start = self.bump().span.start;
        let name_span = self.peek_span();
        let name = match &self.peek().kind {
            TokenKind::Ident(name) => name.clone(),
            other => {
                return Err(
                    unexpected(
                        kind_debug(other),
                        "a `let` binder name",
                        name_span,
                        String::from_str("`let` 后面要跟绑定名，例如 let x : Nat := 1; x"),
                    ),
                );
            },
        };
        self.bump();
        let mut ty: Option<Box<Expr>> = None;
        if self.at_colon() {
            self.bump();
            let t = self.parse_expr()?;
            ty = Some(Box::new(t));
        }
        self.expect_kind(&TokenKind::ColonEq, "`:=` after the let binder")?;
        let val = self.parse_expr()?;
        self.expect_kind(&TokenKind::Semicolon, "`;` after the let value")?;
        let body = self.parse_expr()?;
        let binder_end = match &ty {
            Some(t) => t.span().end,
            None => name_span.end,
        };
        let span = Span::new(start, body.span().end);
        Ok(
            Expr::Let {
                binder: Binder {
                    name,
                    ty,
                    style: BinderKind::Explicit,
                    span: Span::new(name_span.start, binder_end),
                },
                val: Box::new(val),
                body: Box::new(body),
                span,
            },
        )
    }

    /// `match e with | pattern => body | …` (at least one arm).
    fn parse_match(&mut self) -> (r: Result<Expr>)
        requires
            old(self).wf(),
            old(self).cur().kind is Ident,
        ensures
            Self::expr_step(old(self), final(self)),
            r is Ok ==> final(self).cursor > old(self).cursor,
            r matches Ok(Expr::Match { arms, .. }) ==> arms@.len() > 0,
        decreases old(self).remaining(), 10nat,
    {
        let start = self.bump().span.start;
        self.scrutinee_depth = self.scrutinee_depth + 1;
        let scrutinee = self.parse_expr();
        self.scrutinee_depth = self.scrutinee_depth - 1;
        let scrutinee = scrutinee?;
        if self.at_word("with") {
            self.bump();
        } else {
            return Err(
                unexpected(
                    kind_debug(&self.peek().kind),
                    "`with` after the match scrutinee",
                    self.peek_span(),
                    String::from_str(
                        "`match` 的 scrutinee 后面要写 `with`，例如 match c with | … => …",
                    ),
                ),
            );
        }
        let mut arms: Vec<MatchArm> = Vec::new();
        while matches!(self.peek().kind, TokenKind::Pipe)
            invariant
                Self::expr_step(old(self), self),
                self.cursor > old(self).cursor,
            decreases self.remaining(),
        {
            let arm = self.parse_match_arm()?;
            arms.push(arm);
        }
        if arms.len() == 0 {
            return Err(
                self.error_here("`match` 至少需要一条分支，例如 | red => …（`|` 开头的分支）"),
            );
        }
        let end = arms[arms.len() - 1].span.end;
        Ok(Expr::Match { scrutinee: Box::new(scrutinee), arms, span: Span::new(start, end) })
    }

    fn parse_match_arm(&mut self) -> (r: Result<MatchArm>)
        requires
            old(self).wf(),
            old(self).cur().kind is Pipe,
        ensures
            Self::expr_step(old(self), final(self)),
            r is Ok ==> final(self).cursor > old(self).cursor,
        decreases old(self).remaining(), 3nat,
    {
        let pipe = self.bump();
        let start = pipe.span.start;
        let pattern = self.parse_pattern()?;
        let guard = if self.at_word("if") {
            self.bump();
            Some(self.parse_expr()?)
        } else {
            None
        };
        self.expect_kind(&TokenKind::FatArrow, "`=>` after the match pattern")?;
        let body = self.parse_expr()?;
        let span = Span::new(start, body.span().end);
        Ok(MatchArm { pattern, guard, body, span })
    }

    /// `pattern := atom+`, `atom := _ | <num> | <ident> | ( pattern )`.
    fn parse_pattern(&mut self) -> (r: Result<Pattern>)
        requires
            old(self).wf(),
        ensures
            Self::expr_step(old(self), final(self)),
            r is Ok ==> final(self).cursor > old(self).cursor,
            !pattern_atom_start(old(self).cur()) ==> r is Err,
            (old(self).cur().kind matches TokenKind::Ident(n) && n@ != "_"@ && n@ != "if"@) && !pattern_atom_start(
                old(self).tokens@[old(self).cursor + 1],
            ) ==> (r matches Ok(Pattern::Ident { name, args, span }) && name == old(self).cur().kind->Ident_0
                && args@.len() == 0 && span == old(self).cur().span),
        decreases old(self).remaining(),
    {
        let mut atoms: Vec<Pattern> = Vec::new();
        loop
            invariant
                Self::expr_step(old(self), self),
                atoms@.len() > 0 ==> self.cursor > old(self).cursor,
                atoms@.len() == 0 ==> *self == *old(self),
                atoms@.len() == 1 && (old(self).cur().kind matches TokenKind::Ident(n) && n@ != "_"@ && n@
                    != "if"@) ==> self.cursor == old(self).cursor + 1 && (atoms@[0] matches Pattern::Ident {
                    name,
                    args,
                    span,
                } && name == old(self).cur().kind->Ident_0 && args@.len() == 0 && span == old(self).cur().span),
                !pattern_atom_start(old(self).cur()) ==> atoms@.len() == 0,
                atoms@.len() >= 2 && (old(self).cur().kind matches TokenKind::Ident(n) && n@ != "_"@ && n@
                    != "if"@) ==> pattern_atom_start(old(self).tokens@[old(self).cursor + 1]),
            ensures
                Self::expr_step(old(self), self),
                atoms@.len() > 0 ==> self.cursor > old(self).cursor,
                atoms@.len() == 0 ==> *self == *old(self),
                atoms@.len() == 1 && (old(self).cur().kind matches TokenKind::Ident(n) && n@ != "_"@ && n@
                    != "if"@) ==> self.cursor == old(self).cursor + 1 && (atoms@[0] matches Pattern::Ident {
                    name,
                    args,
                    span,
                } && name == old(self).cur().kind->Ident_0 && args@.len() == 0 && span == old(self).cur().span),
                !pattern_atom_start(old(self).cur()) ==> atoms@.len() == 0,
                atoms@.len() >= 2 && (old(self).cur().kind matches TokenKind::Ident(n) && n@ != "_"@ && n@
                    != "if"@) ==> pattern_atom_start(old(self).tokens@[old(self).cursor + 1]),
                !pattern_atom_start(self.cur()),
            decreases self.remaining(),
        {
            if self.at_word("if") {
                break ;
            }
            let tok_span = self.peek_span();
            match &self.peek().kind {
                TokenKind::Ident(_) => {
                    let tok = self.bump();
                    match tok.kind {
                        TokenKind::Ident(name) => {
                            if str_eq(name.as_str(), "_") {
                                atoms.push(Pattern::Wild { span: tok_span });
                            } else {
                                atoms.push(
                                    Pattern::Ident { name, args: Vec::new(), span: tok_span },
                                );
                            }
                        },
                        _ => {},
                    }
                },
                TokenKind::Num(_) => {
                    let tok = self.bump();
                    match tok.kind {
                        TokenKind::Num(value) => atoms.push(Pattern::Num { value, span: tok_span }),
                        _ => {},
                    }
                },
                TokenKind::LParen => {
                    self.bump();
                    let inner = self.parse_pattern()?;
                    self.expect_kind(&TokenKind::RParen, "`)` after a nested pattern")?;
                    atoms.push(inner);
                },
                _ => break ,
            }
        }
        if atoms.len() == 0 {
            return Err(
                unexpected(
                    kind_debug(&self.peek().kind),
                    "a pattern",
                    self.peek_span(),
                    String::from_str(
                        "`|` 后面要跟模式：构造子（如 `succ k`）、`_`、变量名或数字字面量",
                    ),
                ),
            );
        }
        let head = atoms.remove(0);
        match head {
            Pattern::Ident { name, args, span } => {
                if args.len() == 0 {
                    return Ok(Pattern::Ident { name, args: atoms, span });
                }
                if atoms.len() == 0 {
                    return Ok(Pattern::Ident { name, args, span });
                }
                Err(self.pattern_head_error(span))
            },
            other => {
                if atoms.len() == 0 {
                    Ok(other)
                } else {
                    Err(self.pattern_head_error(other.span()))
                }
            },
        }
    }

    fn pattern_head_error(&self, span: Span) -> (r: Diagnostic)
        ensures
            r.kind matches DiagnosticKind::UnexpectedToken { found: f, expected: e } && f@
                == "pattern argument"@ && e@ == "an identifier head"@,
            r.span == span,
            r.message@ == "模式要写成「构造子/变量 子模式…」；数字或 `_` 不能带子模式"@,
    {
        unexpected(
            String::from_str("pattern argument"),
            "an identifier head",
            span,
            String::from_str("模式要写成「构造子/变量 子模式…」；数字或 `_` 不能带子模式"),
        )
    }

    fn parse_arrow(&mut self) -> (r: Result<Expr>)
        requires
            old(self).wf(),
        ensures
            Self::expr_step(old(self), final(self)),
            r is Ok ==> final(self).cursor > old(self).cursor,
        decreases old(self).remaining(), 10nat,
    {
        if self.named_group_ahead() {
            let group = self.parse_binder_group()?;
            self.expect_kind(&TokenKind::Arrow, "`->` after binder group")?;
            let body = self.parse_expr()?;
            let start = group.span.start;
            let end = body.span().end;
            let mut expr = body;
            let mut k = group.names.len();
            while k > 0
                invariant
                    k <= group.names@.len(),
                decreases k,
            {
                k = k - 1;
                expr = Expr::Forall {
                    binders: vec![
                        Binder {
                            name: group.names[k].clone(),
                            ty: Some(Box::new(clone_expr(&group.ty))),
                            style: group.style,
                            span: group.span,
                        },
                    ],
                    body: Box::new(expr),
                    span: Span::new(start, end),
                };
            }
            return Ok(expr);
        }
        let lhs = self.parse_plus()?;
        if matches!(self.peek().kind, TokenKind::Arrow) {
            self.bump();
            let rhs = self.parse_expr()?;
            let span = Span::new(lhs.span().start, rhs.span().end);
            return Ok(Expr::Arrow { domain: Box::new(lhs), codomain: Box::new(rhs), span });
        }
        Ok(lhs)
    }

    /// `(a b c : T)` / `{a b c : T}`: the names and their shared type.
    fn parse_binder_group(&mut self) -> (r: Result<BinderGroup>)
        requires
            old(self).wf(),
        ensures
            Self::expr_step(old(self), final(self)),
            r is Ok ==> final(self).cursor > old(self).cursor,
            r matches Ok(g) ==> g.names@.len() > 0,
        decreases old(self).remaining(), 5nat,
    {
        let tok = self.bump();
        let style = match tok.kind {
            TokenKind::LParen => BinderKind::Explicit,
            TokenKind::LBrace => BinderKind::Implicit,
            _ => {
                return Err(self.error_here("expected `(` or `{` to open a binder group"));
            },
        };
        let first = self.expect_ident("binder name")?;
        let mut names: Vec<String> = vec![first];
        while matches!(self.peek().kind, TokenKind::Ident(_))
            invariant
                Self::expr_step(old(self), self),
                self.cursor > old(self).cursor,
                names@.len() > 0,
            decreases self.remaining(),
        {
            let n = self.expect_ident("binder name")?;
            names.push(n);
        }
        self.expect_kind(&TokenKind::Colon, "binder type")?;
        let ty = self.parse_expr()?;
        let close = match style {
            BinderKind::Explicit => TokenKind::RParen,
            BinderKind::Implicit => TokenKind::RBrace,
        };
        let closing_span = self.peek_span();
        if !same_unit(&self.peek().kind, &close) {
            return Err(self.error_here("expected `)` to close binder group"));
        }
        self.bump();
        Ok(BinderGroup { names, ty, style, span: Span::new(tok.span.start, closing_span.end) })
    }

    fn parse_plus(&mut self) -> (r: Result<Expr>)
        requires
            old(self).wf(),
        ensures
            Self::expr_step(old(self), final(self)),
            r is Ok ==> final(self).cursor > old(self).cursor,
        decreases old(self).remaining(), 9nat,
    {
        self.parse_operators(0)
    }

    /// Precedence climbing over `+` and the declared notations.
    fn parse_operators(&mut self, min_precedence: u16) -> (r: Result<Expr>)
        requires
            old(self).wf(),
        ensures
            Self::expr_step(old(self), final(self)),
            r is Ok ==> final(self).cursor > old(self).cursor,
        decreases old(self).remaining(), 8nat,
    {
        let lhs = self.parse_app()?;
        self.parse_operators_from(lhs, min_precedence)
    }

    /// Climb from an already parsed left operand.
    fn parse_operators_from(&mut self, lhs: Expr, min_precedence: u16) -> (r: Result<Expr>)
        requires
            old(self).wf(),
        ensures
            Self::expr_step(old(self), final(self)),
        decreases old(self).remaining(), 7nat,
    {
        let mut lhs = lhs;
        loop
            invariant
                Self::expr_step(old(self), self),
            decreases self.remaining(),
        {
            match self.postfix_ahead(min_precedence) {
                Some(symbol) => {
                    let tok = self.bump();
                    let span = Span::new(lhs.span().start, tok.span.end);
                    lhs = self.notation_node(
                        symbol.as_str(),
                        NotationAssoc::Postfix,
                        Some(Box::new(lhs)),
                        None,
                        span,
                    );
                    continue ;
                },
                None => {},
            }
            let sym_span = self.peek_span();
            let symbol: Option<String> = match &self.peek().kind {
                TokenKind::Sym(symbol) => Some(symbol.clone()),
                _ => None,
            };
            match symbol {
                Some(symbol) => {
                    match self.notation_shape(symbol.as_str()) {
                        None => {
                            return Err(unknown_symbol_error(symbol.as_str(), sym_span));
                        },
                        Some((assoc, precedence)) => {
                            let binds_here = match precedence {
                                Some(p) => p >= min_precedence,
                                None => false,
                            };
                            if assoc == NotationAssoc::Binder || (!assoc.is_binary()
                                && binds_here) {
                                let s = symbol.as_str();
                                let message = match assoc {
                                    NotationAssoc::Prefix => concat5(
                                        "`",
                                        s,
                                        "` 是**前缀**记法：它要写在操作数**前面**（例如 ",
                                        s,
                                        " A），不能夹在两个操作数中间",
                                    ),
                                    NotationAssoc::Nullary => concat3(
                                        "`",
                                        s,
                                        "` 是零元记法（一个常量），不能当算子用",
                                    ),
                                    NotationAssoc::Binder => concat5(
                                        "`",
                                        s,
                                        "` 是 **binder 记法**：它要写在表达式**开头**（例如 ",
                                        s,
                                        " x, p），不能夹在两个操作数中间",
                                    ),
                                    _ => concat3("`", s, "` 不能出现在这里"),
                                };
                                return Err(error_at(sym_span, message));
                            }
                        },
                    }
                },
                None => {},
            }
            let op = match self.binary_op_ahead(min_precedence) {
                Some(op) => op,
                None => break ,
            };
            self.bump();
            let next_min = if op.assoc == NotationAssoc::Infixr {
                op.precedence
            } else {
                op.precedence + 1
            };
            let rhs = self.parse_operand(&op, next_min)?;
            let span = Span::new(lhs.span().start, rhs.span().end);
            lhs = if op.builtin_plus {
                Expr::Plus { lhs: Box::new(lhs), rhs: Box::new(rhs), span }
            } else {
                self.notation_node(
                    op.symbol.as_str(),
                    op.assoc,
                    Some(Box::new(lhs)),
                    Some(Box::new(rhs)),
                    span,
                )
            };
        }
        Ok(lhs)
    }

    /// The right operand: `∀`/binder notations take the rest of the
    /// expression; a non-associative `infix` may not be chained.
    fn parse_operand(&mut self, op: &BinaryOp, min_precedence: u16) -> (r: Result<Expr>)
        requires
            old(self).wf(),
        ensures
            Self::expr_step(old(self), final(self)),
            r is Ok ==> final(self).cursor > old(self).cursor,
        decreases old(self).remaining(), 20nat,
    {
        if self.leading_binder_ahead() {
            return self.parse_expr();
        }
        let rhs = self.parse_operators(min_precedence)?;
        if op.assoc == NotationAssoc::Infix {
            match self.binary_op_ahead(op.precedence) {
                Some(next) => {
                    if next.precedence == op.precedence {
                        let s = op.symbol.as_str();
                        let n = next.symbol.as_str();
                        let a = concat5("`", s, "` 没有结合性：`a ", s, " b ");
                        let b = concat5(a.as_str(), n, " c` 要写成 `(a ", s, " b) ");
                        let c = concat5(b.as_str(), n, " c` 或 `a ", s, " (b ");
                        let d = concat3(c.as_str(), n, " c)`");
                        return Err(self.error_here_string(d));
                    }
                },
                None => {},
            }
        }
        Ok(rhs)
    }

    fn parse_app(&mut self) -> (r: Result<Expr>)
        requires
            old(self).wf(),
        ensures
            Self::expr_step(old(self), final(self)),
            r is Ok ==> final(self).cursor > old(self).cursor,
        decreases old(self).remaining(), 6nat,
    {
        let mut fun = self.parse_prefix_head()?;
        let explicit = self.saw_at;
        self.saw_at = false;
        loop
            invariant
                Self::expr_step(old(self), self),
                self.cursor > old(self).cursor,
            decreases self.remaining(),
        {
            let arg = if self.starts_atom() {
                self.parse_atom()?
            } else if self.prefix_notation_ahead() {
                self.parse_prefix_head()?
            } else {
                break ;
            };
            let span = Span::new(fun.span().start, arg.span().end);
            fun = Expr::App {
                fun: Box::new(fun),
                arg: Box::new(arg),
                explicit_spine: explicit,
                span,
            };
        }
        Ok(fun)
    }

    /// A prefix notation `𝒫 A` (its operand climbs from its precedence), or
    /// an atom.
    fn parse_prefix_head(&mut self) -> (r: Result<Expr>)
        requires
            old(self).wf(),
        ensures
            Self::expr_step(old(self), final(self)),
            r is Ok ==> final(self).cursor > old(self).cursor,
        decreases old(self).remaining(), 5nat,
    {
        let entry: Option<(String, u16)> = match &self.peek().kind {
            TokenKind::Sym(symbol) => match self.notation_shape(symbol.as_str()) {
                Some((NotationAssoc::Prefix, p)) => Some(
                    (
                        symbol.clone(),
                        match p {
                            Some(q) => q,
                            None => 0,
                        },
                    ),
                ),
                _ => None,
            },
            _ => None,
        };
        match entry {
            None => self.parse_atom(),
            Some((symbol, precedence)) => {
                let tok = self.bump();
                let operand = self.parse_operators(precedence)?;
                let span = Span::new(tok.span.start, operand.span().end);
                Ok(
                    self.notation_node(
                        symbol.as_str(),
                        NotationAssoc::Prefix,
                        None,
                        Some(Box::new(operand)),
                        span,
                    ),
                )
            },
        }
    }

    /// `{a}` / `{a, b}`: one or two elements.
    fn parse_set_literal(&mut self, open: Span) -> (r: Result<Expr>)
        requires
            old(self).wf(),
        ensures
            Self::expr_step(old(self), final(self)),
            r matches Ok(Expr::SetLiteral { elements, .. }) ==> 1 <= elements@.len() <= 2,
            r matches Ok(e) ==> e is SetLiteral,
        decreases old(self).remaining(), 20nat,
    {
        if matches!(self.peek().kind, TokenKind::RBrace) {
            let close = self.peek_span();
            return Err(
                Diagnostic::new(
                    DiagnosticKind::SetLiteralShape { detail: String::from_str("空集合字面量 `{}`") },
                    Span::new(open.start, close.end),
                    String::from_str("空集合字面量 `{}` 不合法：空集请写点名形式 Set.empty α"),
                ),
            );
        }
        let first = self.parse_expr()?;
        let mut elements: Vec<Expr> = vec![first];
        while self.at_comma()
            invariant
                Self::expr_step(old(self), self),
                elements@.len() > 0,
            decreases self.remaining(),
        {
            self.bump();
            let e = self.parse_expr()?;
            elements.push(e);
        }
        let close_span = self.peek_span();
        if !matches!(self.peek().kind, TokenKind::RBrace) {
            let found = kind_debug(&self.peek().kind);
            return Err(
                Diagnostic::new(
                    DiagnosticKind::SetLiteralShape {
                        detail: concat2("expected `}`, found ", found.as_str()),
                    },
                    close_span,
                    String::from_str(
                        "集合字面量要写成 {a} 或 {a, b}：元素之间用 `,` 隔开，最后用 `}` 收尾",
                    ),
                ),
            );
        }
        self.bump();
        if elements.len() > 2 {
            return Err(
                Diagnostic::new(
                    DiagnosticKind::SetLiteralShape { detail: String::from_str("3+ elements") },
                    Span::new(open.start, close_span.end),
                    String::from_str(
                        "集合字面量 v1 只支持 1–2 个元素（`{a}` / `{a, b}`）：三个及以上请用点名形式 Set.pair 自己嵌套",
                    ),
                ),
            );
        }
        Ok(Expr::SetLiteral { elements, span: Span::new(open.start, close_span.end) })
    }

    /// `⟨a, b⟩`: an anonymous constructor with at least one element.
    fn parse_anon_ctor(&mut self, open: Span) -> (r: Result<Expr>)
        requires
            old(self).wf(),
        ensures
            Self::expr_step(old(self), final(self)),
            r matches Ok(Expr::AnonCtor { elements, .. }) ==> elements@.len() >= 1,
            r matches Ok(e) ==> e is AnonCtor,
        decreases old(self).remaining(), 20nat,
    {
        if matches!(self.peek().kind, TokenKind::Rangle) {
            let close = self.peek_span();
            return Err(
                Diagnostic::new(
                    DiagnosticKind::SetLiteralShape { detail: String::from_str("空匿名构造子 `⟨⟩`") },
                    Span::new(open.start, close.end),
                    String::from_str(
                        "`⟨⟩` 里至少要写一个元素：`⟨a, b⟩` 是匿名构造子（用哪个构造子由期望类型决定）",
                    ),
                ),
            );
        }
        let first = self.parse_expr()?;
        let mut elements: Vec<Expr> = vec![first];
        while self.at_comma()
            invariant
                Self::expr_step(old(self), self),
                elements@.len() > 0,
            decreases self.remaining(),
        {
            self.bump();
            let e = self.parse_expr()?;
            elements.push(e);
        }
        let close_span = self.peek_span();
        if !matches!(self.peek().kind, TokenKind::Rangle) {
            let found = kind_debug(&self.peek().kind);
            return Err(
                Diagnostic::new(
                    DiagnosticKind::SetLiteralShape {
                        detail: concat2("expected `⟩`, found ", found.as_str()),
                    },
                    close_span,
                    String::from_str(
                        "匿名构造子要写成 ⟨a, b⟩：元素之间用 `,` 隔开，最后用 `⟩` 收尾",
                    ),
                ),
            );
        }
        self.bump();
        Ok(Expr::AnonCtor { elements, span: Span::new(open.start, close_span.end) })
    }

    fn parse_atom(&mut self) -> (r: Result<Expr>)
        requires
            old(self).wf(),
        ensures
            Self::expr_step(old(self), final(self)),
            r is Ok ==> final(self).cursor > old(self).cursor,
            old(self).cur().kind is Hole ==> r == Ok::<Expr, Diagnostic>(Expr::Hole { span: old(self).cur().span }),
            old(self).cur().kind is Num ==> r == Ok::<Expr, Diagnostic>(
                Expr::Num { value: old(self).cur().kind->Num_0, span: old(self).cur().span },
            ),
            old(self).cur().kind matches TokenKind::Ident(n) && plain_name(n@) && !spec_reserved_command(n@) ==> r
                == Ok::<Expr, Diagnostic>(Expr::Ident { name: old(self).cur().kind->Ident_0, span: old(self).cur().span }),
            old(self).cur().kind matches TokenKind::Ident(n) && plain_name(n@) && spec_reserved_command(n@) ==> r is Err,
            old(self).cur().kind matches TokenKind::Sym(sym) ==> (r is Ok <==> declared_as(
                old(self).notations@,
                sym@,
                NotationAssoc::Nullary,
            )),
            old(self).cur().kind matches TokenKind::Sym(sym) ==> (r matches Ok(e) ==> (e matches Expr::Notation {
                symbol,
                assoc,
                lhs,
                rhs,
                span,
                ..
            } && symbol@ == sym@ && assoc == NotationAssoc::Nullary && lhs is None && rhs is None && span
                == old(self).cur().span)),
            !(old(self).cur().kind is LBrace || old(self).cur().kind is Langle || old(self).cur().kind is At
                || old(self).cur().kind is LParen || old(self).cur().kind is Hole || old(self).cur().kind is Num
                || old(self).cur().kind is Sym || old(self).cur().kind is Ident) ==> r is Err,
            old(self).cur().kind is LParen && r is Ok ==> final(self).cursor > old(self).cursor + 1
                && final(self).spec_tokens()[final(self).cursor - 1].kind is RParen,
        decreases old(self).remaining(), 4nat,
    {
        let tok = self.bump();
        match tok.kind {
            TokenKind::LBrace => self.parse_set_literal(tok.span),
            TokenKind::Langle => self.parse_anon_ctor(tok.span),
            TokenKind::At => {
                self.saw_at = true;
                let t2 = self.bump();
                match t2.kind {
                    TokenKind::Ident(name) => self.finish_const(name, t2.span),
                    other => {
                        Err(
                            unexpected(
                                kind_debug(&other),
                                "a constant name after `@`",
                                t2.span,
                                String::from_str("expected a constant name after `@`"),
                            ),
                        )
                    },
                }
            },
            TokenKind::LParen => {
                let inner = self.parse_expr()?;
                self.expect_kind(&TokenKind::RParen, "`)`")?;
                Ok(inner)
            },
            TokenKind::Hole => Ok(Expr::Hole { span: tok.span }),
            TokenKind::Num(value) => Ok(Expr::Num { value, span: tok.span }),
            TokenKind::Sym(symbol) => {
                match self.notation_shape(symbol.as_str()) {
                    Some((NotationAssoc::Nullary, _)) => Ok(
                        self.notation_node(
                            symbol.as_str(),
                            NotationAssoc::Nullary,
                            None,
                            None,
                            tok.span,
                        ),
                    ),
                    Some((assoc, _)) => {
                        if assoc.is_binary() {
                            let s = symbol.as_str();
                            let msg = concat5(
                                "`",
                                s,
                                "` 是二元记法符号，两边都要有操作数（例如 a ",
                                s,
                                " b）",
                            );
                            Err(self.error_here_string(msg))
                        } else {
                            let s = symbol.as_str();
                            let msg = concat5(
                                "`",
                                s,
                                "` 是一元记法符号：它要跟自己的操作数一起写（例如 ",
                                s,
                                " A）",
                            );
                            Err(error_at(tok.span, msg))
                        }
                    },
                    None => Err(unknown_symbol_error(symbol.as_str(), tok.span)),
                }
            },
            TokenKind::Ident(name) => self.finish_ident(name, tok.span),
            other => {
                let found = kind_debug(&other);
                let message = concat2("expected an expression, found ", found.as_str());
                Err(unexpected(found, "an expression", tok.span, message))
            },
        }
    }

    /// An identifier in atom position (after it was consumed).
    fn finish_ident(&mut self, name: String, span: Span) -> (r: Result<Expr>)
        requires
            old(self).wf(),
        ensures
            Self::expr_step(old(self), final(self)),
            name@ == "Prop"@ ==> r == Ok::<Expr, Diagnostic>(Expr::Sort { sort: SortKind::Prop, span }),
            name@ == "sorry"@ ==> r == Ok::<Expr, Diagnostic>(Expr::Hole { span }),
            name@ == "Type"@ && !(old(self).cur().kind is Num || old(self).cur().kind is LParen) ==> r
                == Ok::<Expr, Diagnostic>(Expr::Sort { sort: SortKind::Type, span }),
            plain_name(name@) && spec_reserved_command(name@) ==> r is Err,
            plain_name(name@) && !spec_reserved_command(name@) ==> r == Ok::<Expr, Diagnostic>(
                Expr::Ident { name, span },
            ) && *final(self) == *old(self),
    {
        proof {
            reveal_strlit("Prop");
            reveal_strlit("sorry");
            reveal_strlit("Type");
            reveal_strlit("Sort");
            assert("Prop"@[0] != "Type"@[0]);
            assert("Prop"@[0] != "Sort"@[0]);
            assert("Sort"@[0] != "Type"@[0]);
            assert("sorry"@.len() != "Type"@.len());
        }
        if str_eq(name.as_str(), "Prop") {
            return Ok(Expr::Sort { sort: SortKind::Prop, span });
        }
        if str_eq(name.as_str(), "sorry") {
            return Ok(Expr::Hole { span });
        }
        if str_eq(name.as_str(), "Type") {
            let paren_or_num = matches!(self.peek().kind, TokenKind::Num(_) | TokenKind::LParen);
            if paren_or_num {
                let text = self.parse_level_text()?;
                let sspan = Span::new(span.start, self.prev_end());
                let sort = match parse_u64(text.as_str()) {
                    Some(n) => {
                        if n == u64::MAX {
                            return Err(level_too_large_error(text.as_str(), sspan));
                        }
                        SortKind::Sort(n + 1)
                    },
                    None => {
                        if all_ascii_digits(text.as_str()) {
                            return Err(level_too_large_error(text.as_str(), sspan));
                        }
                        SortKind::Level(concat2(text.as_str(), "+1"))
                    },
                };
                return Ok(Expr::Sort { sort, span: sspan });
            }
            return Ok(Expr::Sort { sort: SortKind::Type, span });
        }
        if str_eq(name.as_str(), "Sort") {
            let text = self.parse_level_text()?;
            let sspan = Span::new(span.start, self.prev_end());
            let sort = match parse_u64(text.as_str()) {
                Some(n) => SortKind::Sort(n),
                None => {
                    if all_ascii_digits(text.as_str()) {
                        return Err(level_too_large_error(text.as_str(), sspan));
                    }
                    SortKind::Level(text)
                },
            };
            return Ok(Expr::Sort { sort, span: sspan });
        }
        if ends_with_char(name.as_str(), '.') {
            return self.finish_const(name, span);
        }
        if is_reserved_command(name.as_str()) {
            let message = concat3(
                "command keyword `",
                name.as_str(),
                "` cannot appear inside an expression",
            );
            return Err(unexpected(name, "an expression", span, message));
        }
        self.finish_const(name, span)
    }

    /// A constant, or `Name.{levels}` (a name written with a trailing `.`).
    fn finish_const(&mut self, name: String, span: Span) -> (r: Result<Expr>)
        requires
            old(self).wf(),
        ensures
            Self::expr_step(old(self), final(self)),
            !(name@.len() > 0 && name@.last() == '.') ==> r == Ok::<Expr, Diagnostic>(Expr::Ident { name, span })
                && *final(self) == *old(self),
            name@.len() > 0 && name@.last() == '.' && (forall|i: int| 0 <= i < name@.len() ==> name@[i] == '.')
                ==> r is Err,
            name@.len() > 0 && name@.last() == '.' && !(old(self).cur().kind is LBrace) ==> r is Err,
            r matches Ok(Expr::UniverseApp { name: b, .. }) ==> name@ == b@ + name@.skip(b@.len() as int)
                && b@.len() > 0 && b@.last() != '.' && forall|i: int|
                b@.len() <= i < name@.len() ==> name@[i] == '.',
    {
        if ends_with_char(name.as_str(), '.') {
            let base = trim_trailing_dots(name.as_str());
            if is_empty_str(base.as_str()) {
                return Err(
                    unexpected(
                        name,
                        "a constant name",
                        span,
                        String::from_str("expected a constant name before `.{...}`"),
                    ),
                );
            }
            if matches!(self.peek().kind, TokenKind::LBrace) {
                self.bump();
                let mut levels: Vec<String> = Vec::new();
                loop
                    invariant
                        Self::expr_step(old(self), self),
                        self.cursor > old(self).cursor,
                        name@.len() > 0 && name@.last() == '.',
                        name@.take(base@.len() as int) == base@,
                        base@.len() > 0 && base@.last() != '.',
                        forall|i: int| base@.len() <= i < name@.len() ==> name@[i] == '.',
                    decreases self.remaining(),
                {
                    let level = self.parse_level_text()?;
                    levels.push(level);
                    if self.at_comma() {
                        self.bump();
                    } else if matches!(self.peek().kind, TokenKind::RBrace) {
                        self.bump();
                        break ;
                    } else {
                        return Err(self.error_here("expected `,` or `}` in universe arguments"));
                    }
                }
                let uspan = Span::new(span.start, self.prev_end());
                proof {
                    assert(name@ =~= base@ + name@.skip(base@.len() as int));
                }
                return Ok(Expr::UniverseApp { name: base, levels, span: uspan });
            }
            return Err(self.error_here("expected `{...}` after `.{...}` universe marker"));
        }
        Ok(Expr::Ident { name, span })
    }

    /// A universe level as text: `u`, `3`, `u+1`, `(u+1)+1`; `+` takes
    /// numerals only.
    fn parse_level_text(&mut self) -> (r: Result<String>)
        requires
            old(self).wf(),
        ensures
            Self::expr_step(old(self), final(self)),
            r is Ok ==> final(self).cursor > old(self).cursor,
        decreases old(self).remaining(), 2nat,
    {
        let mut text = self.parse_level_atom()?;
        while matches!(self.peek().kind, TokenKind::Plus)
            invariant
                Self::expr_step(old(self), self),
                self.cursor > old(self).cursor,
            decreases self.remaining(),
        {
            self.bump();
            let tok = self.bump();
            match tok.kind {
                TokenKind::Num(n) => {
                    text = concat3(text.as_str(), "+", n.as_str());
                },
                other => {
                    return Err(
                        unexpected(
                            kind_debug(&other),
                            "a numeral after `+`",
                            tok.span,
                            String::from_str(
                                "层级加法只收数字后缀（例如 `u+1`）；`max`/`u+v` 不在本语言的层级语法面内",
                            ),
                        ),
                    );
                },
            }
        }
        Ok(text)
    }

    fn parse_level_atom(&mut self) -> (r: Result<String>)
        requires
            old(self).wf(),
        ensures
            Self::expr_step(old(self), final(self)),
            r is Ok ==> final(self).cursor > old(self).cursor,
            old(self).cur().kind matches TokenKind::Num(v) ==> r == Ok::<String, Diagnostic>(v),
            old(self).cur().kind matches TokenKind::Ident(n) ==> r == Ok::<String, Diagnostic>(n),
            !(old(self).cur().kind is Num || old(self).cur().kind is Ident || old(self).cur().kind is LParen)
                ==> r is Err,
        decreases old(self).remaining(), 1nat,
    {
        let tok = self.bump();
        match tok.kind {
            TokenKind::Num(value) => Ok(value),
            TokenKind::Ident(name) => Ok(name),
            TokenKind::LParen => {
                let inner = self.parse_level_text()?;
                self.expect_kind(&TokenKind::RParen, "`)`")?;
                Ok(inner)
            },
            other => Err(
                unexpected(
                    kind_debug(&other),
                    "a universe level",
                    tok.span,
                    String::from_str("expected a universe level"),
                ),
            ),
        }
    }

    fn parse_lambda(&mut self) -> (r: Result<Expr>)
        requires
            old(self).wf(),
            old(self).cur().kind is Ident,
        ensures
            Self::expr_step(old(self), final(self)),
            r is Ok ==> final(self).cursor > old(self).cursor,
            r matches Ok(e) ==> e is Lambda,
        decreases old(self).remaining(), 10nat,
    {
        let start = self.bump().span.start;
        let mut binders: Vec<Binder> = Vec::new();
        while !self.at_kind_fat_arrow()
            invariant
                Self::expr_step(old(self), self),
                self.cursor > old(self).cursor,
            decreases self.remaining(),
        {
            self.push_binders(&mut binders)?;
        }
        self.expect_kind(&TokenKind::FatArrow, "`=>`")?;
        let body = if self.at_word("by") {
            self.parse_by_block()?
        } else {
            self.parse_expr()?
        };
        let span = Span::new(start, body.span().end);
        Ok(Expr::Lambda { binders, body: Box::new(body), span })
    }

    fn parse_forall(&mut self) -> (r: Result<Expr>)
        requires
            old(self).wf(),
            old(self).cur().kind is Forall,
        ensures
            Self::expr_step(old(self), final(self)),
            r is Ok ==> final(self).cursor > old(self).cursor,
            r matches Ok(Expr::Forall { binders, .. }) ==> binders@.len() > 0,
            r matches Ok(e) ==> e is Forall,
        decreases old(self).remaining(), 10nat,
    {
        let start = self.bump().span.start;
        let (binders, guard) = self.parse_binder_prefix("∀")?;
        let body = self.parse_expr()?;
        let span = Span::new(start, body.span().end);
        let body = match guard {
            Some(guard) => Expr::Arrow { domain: Box::new(guard), codomain: Box::new(body), span },
            None => body,
        };
        Ok(Expr::Forall { binders, body: Box::new(body), span })
    }

    /// The binders of `∀` or of a binder notation, up to the `,`; a
    /// two-stage binder `x ∈ s` also returns its relation.
    fn parse_binder_prefix(&mut self, keyword: &str) -> (r: Result<(Vec<Binder>, Option<Expr>)>)
        requires
            old(self).wf(),
        ensures
            Self::expr_step(old(self), final(self)),
            r is Ok ==> final(self).cursor > old(self).cursor,
            r matches Ok((b, _)) ==> b@.len() > 0,
        decreases old(self).remaining(), 9nat,
    {
        let mut binders: Vec<Binder> = Vec::new();
        loop
            invariant
                Self::expr_step(old(self), self),
                binders@.len() > 0 ==> self.cursor > old(self).cursor,
            decreases self.remaining(),
        {
            self.push_binders(&mut binders)?;
            if self.at_comma() {
                self.bump();
                return Ok((binders, None));
            }
            if self.binder_guard_ahead() {
                let n = binders.len();
                let lhs = Expr::Ident { name: binders[n - 1].name.clone(), span: binders[n - 1].span };
                let guard = self.parse_operators_from(lhs, 0)?;
                if self.at_comma() {
                    self.bump();
                    return Ok((binders, Some(guard)));
                }
                let msg = concat3("两段式 binder（`", keyword, " x ∈ s, p`）里的关系式后面要写 `,`");
                return Err(self.error_here_string(msg));
            }
            let sym_span = self.peek_span();
            match &self.peek().kind {
                TokenKind::Sym(symbol) => {
                    return Err(unknown_symbol_error(symbol.as_str(), sym_span));
                },
                TokenKind::Eof => {
                    let msg = concat3("unexpected end of file inside `", keyword, "` binders");
                    return Err(self.error_here_string(msg));
                },
                _ => {},
            }
        }
    }

    /// `∃ x, p` / `∃ x ∈ s, p`: a binder notation node whose operand is a
    /// lambda over the binders (with the relation conjoined in front).
    fn parse_binder_notation(&mut self) -> (r: Result<Expr>)
        requires
            old(self).wf(),
            old(self).cur().kind is Sym,
        ensures
            Self::expr_step(old(self), final(self)),
            r is Ok ==> final(self).cursor > old(self).cursor,
        decreases old(self).remaining(), 10nat,
    {
        let tok = self.bump();
        let symbol = match tok.kind {
            TokenKind::Sym(s) => s,
            _ => String::new(),
        };
        let (binders, guard) = self.parse_binder_prefix(symbol.as_str())?;
        let body = self.parse_expr()?;
        let span = Span::new(tok.span.start, body.span().end);
        let body = match guard {
            Some(guard) => {
                let and_span = guard.span();
                Expr::App {
                    fun: Box::new(
                        Expr::App {
                            fun: Box::new(Expr::Ident { name: String::from_str("And"), span: and_span }),
                            arg: Box::new(guard),
                            explicit_spine: false,
                            span: and_span,
                        },
                    ),
                    arg: Box::new(body),
                    explicit_spine: false,
                    span,
                }
            },
            None => body,
        };
        let operand = Expr::Lambda { binders, body: Box::new(body), span };
        Ok(
            self.notation_node(
                symbol.as_str(),
                NotationAssoc::Binder,
                None,
                Some(Box::new(operand)),
                span,
            ),
        )
    }

    /// Append one binder `(a : T)` / `{a : T}` / `a` / `a : T`, or every
    /// name of a group `(a b : T)`.
    fn push_binders(&mut self, binders: &mut Vec<Binder>) -> (r: Result<()>)
        requires
            old(self).wf(),
        ensures
            Self::expr_step(old(self), final(self)),
            r is Ok ==> final(self).cursor > old(self).cursor,
            r is Ok ==> final(binders)@.len() > old(binders)@.len(),
            final(binders)@.len() >= old(binders)@.len(),
        decreases old(self).remaining(), 8nat,
    {
        if self.named_group_ahead() && self.multi_name_group_ahead() {
            let group = self.parse_binder_group()?;
            let mut k: usize = 0;
            while k < group.names.len()
                invariant
                    k <= group.names@.len(),
                    binders@.len() == old(binders)@.len() + k,
                decreases group.names.len() - k,
            {
                binders.push(
                    Binder {
                        name: group.names[k].clone(),
                        ty: Some(Box::new(clone_expr(&group.ty))),
                        style: group.style,
                        span: group.span,
                    },
                );
                k = k + 1;
            }
            return Ok(());
        }
        let b = self.parse_binder()?;
        binders.push(b);
        Ok(())
    }

    fn parse_binder(&mut self) -> (r: Result<Binder>)
        requires
            old(self).wf(),
        ensures
            Self::expr_step(old(self), final(self)),
            r is Ok ==> final(self).cursor > old(self).cursor,
        decreases old(self).remaining(), 5nat,
    {
        let tok_span = self.peek_span();
        if matches!(self.peek().kind, TokenKind::LParen) || matches!(
            self.peek().kind,
            TokenKind::LBrace,
        ) {
            let explicit = matches!(self.peek().kind, TokenKind::LParen);
            self.bump();
            let name = self.expect_ident("binder name")?;
            self.expect_kind(&TokenKind::Colon, "binder type")?;
            let ty = self.parse_expr()?;
            if explicit {
                self.expect_kind(&TokenKind::RParen, "`)`")?;
            } else {
                self.expect_kind(&TokenKind::RBrace, "`}`")?;
            }
            let end = self.prev_end();
            return Ok(
                Binder {
                    name,
                    ty: Some(Box::new(ty)),
                    style: if explicit {
                        BinderKind::Explicit
                    } else {
                        BinderKind::Implicit
                    },
                    span: Span::new(tok_span.start, end),
                },
            );
        }
        if matches!(self.peek().kind, TokenKind::Ident(_)) {
            let name = self.expect_ident("binder name")?;
            let mut ty: Option<Box<Expr>> = None;
            if self.at_colon() {
                self.bump();
                let t = self.parse_expr()?;
                ty = Some(Box::new(t));
            }
            let end = match &ty {
                Some(t) => t.span().end,
                None => tok_span.end,
            };
            return Ok(
                Binder { name, ty, style: BinderKind::Explicit, span: Span::new(tok_span.start, end) },
            );
        }
        let found = kind_debug(&self.peek().kind);
        let msg = concat2("expected a binder, found ", found.as_str());
        Err(self.error_here_string(msg))
    }

    // -----------------------------------------------------------------------
    // Tactic blocks.
    // -----------------------------------------------------------------------

    /// `by <tactic> ((';' | newline) <tactic>)*` (possibly empty).
    fn parse_by_block(&mut self) -> (r: Result<Expr>)
        requires
            old(self).wf(),
            old(self).cur().kind is Ident,
        ensures
            Self::expr_step(old(self), final(self)),
            r is Ok ==> final(self).cursor > old(self).cursor,
            r matches Ok(e) ==> e is By,
        decreases old(self).remaining(), 3nat,
    {
        let by_tok = self.bump();
        let start = by_tok.span.start;
        let mut tactics: Vec<Tactic> = Vec::new();
        if self.tactic_keyword_ahead() {
            loop
                invariant
                    old(self).wf(),
                    Self::expr_step(old(self), self),
                    self.cursor > old(self).cursor,
                decreases self.remaining(),
            {
                let t = self.parse_tactic()?;
                tactics.push(t);
                if matches!(self.peek().kind, TokenKind::Semicolon) {
                    self.bump();
                    continue ;
                }
                if self.next_line_starts_a_tactic() {
                    continue ;
                }
                break ;
            }
        }
        let end = if tactics.len() > 0 {
            tactics[tactics.len() - 1].span().end
        } else {
            by_tok.span.end
        };
        Ok(Expr::By { tactics, span: Span::new(start, end) })
    }

    /// The arms after `cases … with`: `| ctor names => tactics`, at least one.
    fn parse_cases_arms(&mut self) -> (r: Result<Vec<CasesArm>>)
        requires
            old(self).wf(),
        ensures
            Self::expr_step(old(self), final(self)),
            r matches Ok(arms) ==> arms@.len() > 0,
        decreases old(self).remaining(), 3nat,
    {
        let mut arms: Vec<CasesArm> = Vec::new();
        while matches!(self.peek().kind, TokenKind::Pipe)
            invariant
                Self::expr_step(old(self), self),
            decreases self.remaining(),
        {
            let ghost arm_start = self.cursor;
            let pipe = self.bump();
            let ctor_tok = self.bump();
            let ctor = match ctor_tok.kind {
                TokenKind::Ident(c) => c,
                _ => {
                    return Err(self.error_here("`cases` 分支需要构造子名"));
                },
            };
            let mut binders: Vec<String> = Vec::new();
            loop
                invariant
                    Self::expr_step(old(self), self),
                    self.cursor > arm_start,
                decreases self.remaining(),
            {
                let stop = match &self.peek().kind {
                    TokenKind::Ident(name) => str_eq(name.as_str(), "with") || is_tactic_keyword(
                        name.as_str(),
                    ),
                    _ => true,
                };
                if stop {
                    break ;
                }
                let name_tok = self.bump();
                match name_tok.kind {
                    TokenKind::Ident(name) => binders.push(name),
                    _ => {},
                }
            }
            if !self.at_kind_fat_arrow() {
                return Err(self.error_here("`cases` 分支需要 `=>`"));
            }
            self.bump();
            let tactics = self.parse_tactic_sequence_in_arm(pipe.span.start.column)?;
            let end = if tactics.len() > 0 {
                tactics[tactics.len() - 1].span().end
            } else {
                self.prev_end()
            };
            arms.push(CasesArm { ctor, binders, tactics, span: Span::new(pipe.span.start, end) });
        }
        if arms.len() == 0 {
            return Err(
                self.error_here(
                    "`cases … with` 后面至少要有一个分支（`| 构造子 名字… => tactic`）",
                ),
            );
        }
        Ok(arms)
    }

    /// The tactics of a `cases` arm: until `|`, or a tactic that is not on a
    /// deeper column than the arm's `|`.
    fn parse_tactic_sequence_in_arm(&mut self, pipe_column: usize) -> (r: Result<Vec<Tactic>>)
        requires
            old(self).wf(),
            old(self).by_depth < old(self).cursor,
        ensures
            Self::expr_step(old(self), final(self)),
            !(old(self).cur().kind matches TokenKind::Ident(w) && spec_tactic_keyword(w@)) ==> (r matches Ok(
                v,
            ) && v@.len() == 0) && *final(self) == *old(self),
            (old(self).cur().kind matches TokenKind::Ident(w) && spec_tactic_keyword(w@)) ==> (r matches Ok(v)
                ==> v@.len() > 0),
        decreases old(self).remaining(), 20nat,
    {
        let mut tactics: Vec<Tactic> = Vec::new();
        if !self.tactic_keyword_ahead() {
            return Ok(tactics);
        }
        loop
            invariant
                Self::expr_step(old(self), self),
                old(self).by_depth < old(self).cursor,
                old(self).cur().kind matches TokenKind::Ident(w) && spec_tactic_keyword(w@),
            ensures
                Self::expr_step(old(self), self),
                tactics@.len() > 0,
            decreases self.remaining(),
        {
            let t = self.parse_tactic()?;
            tactics.push(t);
            if matches!(self.peek().kind, TokenKind::Semicolon) {
                self.bump();
            } else if matches!(self.peek().kind, TokenKind::Pipe) {
                break ;
            } else if !self.next_line_starts_a_tactic() || self.peek_span().start.column
                <= pipe_column {
                break ;
            }
        }
        Ok(tactics)
    }

    /// The nested tactics of `have … := by`: a tactic on a column not deeper
    /// than the `have` belongs to the outer block.
    fn parse_nested_tactic_sequence(&mut self, have_column: usize) -> (r: Result<Vec<Tactic>>)
        requires
            old(self).wf(),
            old(self).by_depth < old(self).cursor,
        ensures
            Self::expr_step(old(self), final(self)),
            !(old(self).cur().kind matches TokenKind::Ident(w) && spec_tactic_keyword(w@)) ==> (r matches Ok(
                v,
            ) && v@.len() == 0) && *final(self) == *old(self),
            (old(self).cur().kind matches TokenKind::Ident(w) && spec_tactic_keyword(w@)) ==> (r matches Ok(v)
                ==> v@.len() > 0),
        decreases old(self).remaining(), 20nat,
    {
        let mut tactics: Vec<Tactic> = Vec::new();
        if !self.tactic_keyword_ahead() {
            return Ok(tactics);
        }
        loop
            invariant
                Self::expr_step(old(self), self),
                old(self).by_depth < old(self).cursor,
                old(self).cur().kind matches TokenKind::Ident(w) && spec_tactic_keyword(w@),
            ensures
                Self::expr_step(old(self), self),
                tactics@.len() > 0,
            decreases self.remaining(),
        {
            let t = self.parse_tactic()?;
            tactics.push(t);
            if matches!(self.peek().kind, TokenKind::Semicolon) {
                self.bump();
            } else if !self.next_line_starts_a_tactic() || self.peek_span().start.column
                <= have_column {
                break ;
            }
        }
        Ok(tactics)
    }

    fn parse_tactic(&mut self) -> (r: Result<Tactic>)
        requires
            old(self).wf(),
            old(self).by_depth < old(self).cursor,
        ensures
            Self::expr_step(old(self), final(self)),
            r is Ok ==> final(self).cursor > old(self).cursor,
        decreases old(self).remaining(), 14nat,
    {
        self.by_depth = self.by_depth + 1;
        let result = self.parse_tactic_inner();
        self.by_depth = self.by_depth - 1;
        result
    }

    fn parse_tactic_inner(&mut self) -> (r: Result<Tactic>)
        requires
            old(self).wf(),
        ensures
            Self::expr_step(old(self), final(self)),
            r is Ok ==> final(self).cursor > old(self).cursor,
            !(old(self).cur().kind matches TokenKind::Ident(w) && tactic_word(w@)) ==> r is Err,
            word_at(old(self).cur(), "assumption"@) ==> r == Ok::<Tactic, Diagnostic>(
                Tactic::Assumption { span: old(self).cur().span },
            ),
            word_at(old(self).cur(), "rfl"@) ==> r == Ok::<Tactic, Diagnostic>(Tactic::Rfl { span: old(self).cur().span }),
            word_at(old(self).cur(), "constructor"@) ==> r == Ok::<Tactic, Diagnostic>(
                Tactic::Constructor { span: old(self).cur().span },
            ),
            word_at(old(self).cur(), "left"@) ==> r == Ok::<Tactic, Diagnostic>(Tactic::Left { span: old(self).cur().span }),
            word_at(old(self).cur(), "right"@) ==> r == Ok::<Tactic, Diagnostic>(Tactic::Right { span: old(self).cur().span }),
            word_at(old(self).cur(), "exfalso"@) ==> r == Ok::<Tactic, Diagnostic>(
                Tactic::Exfalso { span: old(self).cur().span },
            ),
            word_at(old(self).cur(), "sorry"@) ==> r == Ok::<Tactic, Diagnostic>(Tactic::Sorry { span: old(self).cur().span }),
            word_at(old(self).cur(), "exact"@) ==> (r matches Ok(t) ==> t is Exact),
            word_at(old(self).cur(), "match"@) ==> (r matches Ok(t) ==> t is Exact),
            word_at(old(self).cur(), "apply"@) ==> (r matches Ok(t) ==> t is Apply),
            word_at(old(self).cur(), "use"@) ==> (r matches Ok(t) ==> t is Use),
            word_at(old(self).cur(), "have"@) ==> (r matches Ok(t) ==> t is Have),
            word_at(old(self).cur(), "cases"@) ==> (r matches Ok(t) ==> t is Cases),
            word_at(old(self).cur(), "intro"@) ==> (r is Ok <==> intro_names(old(self).tokens@, old(self).cursor + 1).len()
                > 0),
            word_at(old(self).cur(), "intro"@) ==> (r matches Ok(t) ==> (t matches Tactic::Intro { names, .. }
                && string_views(names@) == intro_names(old(self).tokens@, old(self).cursor + 1))),
        decreases old(self).remaining(), 13nat,
    {
        proof {
            lemma_tactic_words_differ();
        }
        let tok_span = self.peek_span();
        if self.at_word("intro") {
            self.bump();
            let mut names: Vec<String> = Vec::new();
            let mut end = tok_span.end;
            proof {
                assert(string_views(names@) =~= Seq::<Seq<char>>::empty());
            }
            loop
                invariant_except_break
                    string_views(names@) + intro_names(self.tokens@, self.cursor as int) == intro_names(
                        old(self).tokens@,
                        old(self).cursor + 1,
                    ),
                invariant
                    Self::expr_step(old(self), self),
                    self.cursor > old(self).cursor,
                    word_at(old(self).cur(), "intro"@),
                ensures
                    Self::expr_step(old(self), self),
                    self.cursor > old(self).cursor,
                    string_views(names@) == intro_names(old(self).tokens@, old(self).cursor + 1),
                    word_at(old(self).cur(), "intro"@),
                decreases self.remaining(),
            {
                let ghost before = string_views(names@);
                let ghost k = self.cursor as int;
                let stop = match &self.peek().kind {
                    TokenKind::Ident(name) => is_tactic_keyword(name.as_str()),
                    _ => true,
                };
                if stop {
                    proof {
                        assert(intro_names(self.tokens@, k) =~= Seq::<Seq<char>>::empty());
                        assert(before + Seq::<Seq<char>>::empty() =~= before);
                    }
                    break ;
                }
                let name_tok = self.bump();
                end = name_tok.span.end;
                match name_tok.kind {
                    TokenKind::Ident(name) => {
                        let ghost nv = name@;
                        names.push(name);
                        proof {
                            assert(string_views(names@) =~= before.push(nv));
                            assert(before.push(nv) + intro_names(self.tokens@, k + 1) =~= before + (seq![nv]
                                + intro_names(self.tokens@, k + 1)));
                        }
                    },
                    _ => {},
                }
            }
            proof {
                lemma_tactic_words_differ();
            }
            if names.len() == 0 {
                return Err(self.error_here("`intro` binder name"));
            }
            return Ok(Tactic::Intro { names, span: Span::new(tok_span.start, end) });
        }
        if self.at_word("exact") {
            self.bump();
            let expr = self.parse_expr()?;
            let end = expr.span().end;
            return Ok(Tactic::Exact { expr, span: Span::new(tok_span.start, end) });
        }
        if self.at_word("apply") {
            self.bump();
            let expr = self.parse_expr()?;
            let end = expr.span().end;
            return Ok(Tactic::Apply { expr, span: Span::new(tok_span.start, end) });
        }
        if self.at_word("assumption") {
            self.bump();
            return Ok(Tactic::Assumption { span: tok_span });
        }
        if self.at_word("rfl") {
            self.bump();
            return Ok(Tactic::Rfl { span: tok_span });
        }
        if self.at_word("match") {
            let expr = self.parse_match()?;
            let end = expr.span().end;
            return Ok(Tactic::Exact { expr, span: Span::new(tok_span.start, end) });
        }
        if self.at_word("constructor") {
            self.bump();
            return Ok(Tactic::Constructor { span: tok_span });
        }
        if self.at_word("left") {
            self.bump();
            return Ok(Tactic::Left { span: tok_span });
        }
        if self.at_word("right") {
            self.bump();
            return Ok(Tactic::Right { span: tok_span });
        }
        if self.at_word("exfalso") {
            self.bump();
            return Ok(Tactic::Exfalso { span: tok_span });
        }
        if self.at_word("have") {
            let have_column = tok_span.start.column;
            self.bump();
            let name_tok = self.bump();
            let name = match name_tok.kind {
                TokenKind::Ident(n) => n,
                _ => {
                    return Err(self.error_here("`have` binder name"));
                },
            };
            if !self.at_colon() {
                return Err(self.error_here("`:` after the `have` binder name"));
            }
            self.bump();
            let ty = self.parse_expr()?;
            if !matches!(self.peek().kind, TokenKind::ColonEq) {
                return Err(self.error_here("`:=` after the `have` type"));
            }
            self.bump();
            let (value, end) = if self.at_word("by") {
                self.bump();
                let tactics = self.parse_nested_tactic_sequence(have_column)?;
                let end = if tactics.len() > 0 {
                    tactics[tactics.len() - 1].span().end
                } else {
                    self.prev_end()
                };
                (HaveValue::By(tactics), end)
            } else {
                let expr = self.parse_expr()?;
                let end = expr.span().end;
                (HaveValue::Term(expr), end)
            };
            return Ok(Tactic::Have { name, ty, value, span: Span::new(tok_span.start, end) });
        }
        if self.at_word("use") {
            self.bump();
            let expr = self.parse_expr()?;
            let end = expr.span().end;
            return Ok(Tactic::Use { expr, span: Span::new(tok_span.start, end) });
        }
        if self.at_word("cases") {
            self.bump();
            self.scrutinee_depth = self.scrutinee_depth + 1;
            let expr = self.parse_expr();
            self.scrutinee_depth = self.scrutinee_depth - 1;
            let expr = expr?;
            let mut end = expr.span().end;
            let mut arms: Vec<CasesArm> = Vec::new();
            if self.at_word("with") {
                self.bump();
                arms = self.parse_cases_arms()?;
                end = arms[arms.len() - 1].span.end;
            }
            return Ok(Tactic::Cases { expr, arms, span: Span::new(tok_span.start, end) });
        }
        if self.at_word("sorry") {
            self.bump();
            return Ok(Tactic::Sorry { span: tok_span });
        }
        let found = kind_debug(&self.peek().kind);
        let msg = concat2(
            "未知 tactic：`by` 块只支持 intro / exact / apply / assumption / rfl / match / constructor / left / right / use / exfalso / cases / sorry（白名单），发现 ",
            found.as_str(),
        );
        Err(self.error_here_string(msg))
    }
}

// ---------------------------------------------------------------------------
// Entry points.
// ---------------------------------------------------------------------------

/// The lexer's symbol table for `src`: the symbols its notation commands
/// declare, the built-in ones, and the inherited ones.
fn lexer_symbols(src: &str, inherited: &[NotationDecl]) -> (r: Vec<String>)
    ensures
        string_views(r@) == add_all(
            add_all(scan_lines(src@, 0, Seq::empty()), builtin_lexer_symbols()),
            inherited@.map_values(|d: NotationDecl| d.symbol@),
        ),
{
    let mut symbols = scan_notation_symbols(src);
    let builtin = lexer_builtin_symbols();
    let ghost start = string_views(symbols@);
    proof {
        assert(string_views(builtin@) =~= builtin_lexer_symbols());
    }
    let mut k: usize = 0;
    while k < builtin.len()
        invariant
            k <= builtin@.len(),
            string_views(builtin@) == builtin_lexer_symbols(),
            string_views(symbols@) == add_all(start, string_views(builtin@).take(k as int)),
        decreases builtin.len() - k,
    {
        proof {
            lemma_add_all_step(start, string_views(builtin@), k as int);
            lemma_contains_view(symbols@, builtin@[k as int]@);
        }
        if !contains_string(&symbols, builtin[k].as_str()) {
            let ghost before = symbols@;
            let b = builtin[k].clone();
            symbols.push(b);
            proof {
                assert(string_views(symbols@) =~= string_views(before).push(b@));
            }
        }
        k = k + 1;
    }
    proof {
        assert(string_views(builtin@).take(builtin@.len() as int) == string_views(builtin@));
    }
    let ghost middle = string_views(symbols@);
    let ghost inh = inherited@.map_values(|d: NotationDecl| d.symbol@);
    let mut k: usize = 0;
    while k < inherited.len()
        invariant
            k <= inherited@.len(),
            inh == inherited@.map_values(|d: NotationDecl| d.symbol@),
            string_views(symbols@) == add_all(middle, inh.take(k as int)),
        decreases inherited.len() - k,
    {
        proof {
            lemma_add_all_step(middle, inh, k as int);
            lemma_contains_view(symbols@, inherited@[k as int].symbol@);
        }
        if !contains_string(&symbols, inherited[k].symbol.as_str()) {
            let ghost before = symbols@;
            let b = inherited[k].symbol.clone();
            symbols.push(b);
            proof {
                assert(string_views(symbols@) =~= string_views(before).push(b@));
            }
        }
        k = k + 1;
    }
    proof {
        assert(inh.take(inh.len() as int) == inh);
    }
    symbols
}

/// `out` with each of `xs` added in order, each only where it is not there
/// yet.
pub open spec fn add_all(out: Seq<Seq<char>>, xs: Seq<Seq<char>>) -> Seq<Seq<char>>
    decreases xs.len(),
{
    if xs.len() == 0 {
        out
    } else {
        add_new(add_all(out, xs.drop_last()), xs.last())
    }
}

proof fn lemma_add_all_step(out: Seq<Seq<char>>, xs: Seq<Seq<char>>, k: int)
    requires
        0 <= k < xs.len(),
    ensures
        add_all(out, xs.take(k + 1)) == add_new(add_all(out, xs.take(k)), xs[k]),
{
    assert(xs.take(k + 1).drop_last() == xs.take(k));
}

proof fn lemma_contains_view(v: Seq<String>, s: Seq<char>)
    ensures
        string_views(v).contains(s) <==> exists|k: int| 0 <= k < v.len() && v[k]@ == s,
{
    if string_views(v).contains(s) {
        let k = choose|k: int| 0 <= k < string_views(v).len() && string_views(v)[k] == s;
        assert(v[k]@ == s);
    }
    if exists|k: int| 0 <= k < v.len() && v[k]@ == s {
        let k = choose|k: int| 0 <= k < v.len() && v[k]@ == s;
        assert(string_views(v)[k] == s);
    }
}

/// The symbols the lexer knows in `src`: those its notation commands
/// declare, the built-in ones, then the `inherited` ones, each once, the
/// empty one left out.
pub open spec fn file_symbols(src: Seq<char>, inherited: Seq<Seq<char>>) -> Seq<Seq<char>> {
    nonempty_texts(add_all(add_all(scan_lines(src, 0, Seq::empty()), builtin_lexer_symbols()), inherited))
}

/// The built-in symbols the lexer always knows.
pub open spec fn builtin_lexer_symbols() -> Seq<Seq<char>> {
    Seq::new(5, |k: int| builtin_table()[if k < 4 { k } else { k + 1 }].0)
}

/// Lex `src` with the symbols that its own notation commands declare and
/// the built-in ones: the token stream that [`parse`] reads.
pub fn tokenize(src: &str) -> (r: Result<Vec<Token>>)
    ensures
        r matches Ok(t) ==> lexed(t@),
        r is Ok <==> lex_ok(src@, 0, file_symbols(src@, Seq::empty())),
        r matches Ok(t) ==> tok_views(t@) == lex_tokens(src@, 0, file_symbols(src@, Seq::empty())),
{
    let none: Vec<NotationDecl> = Vec::new();
    proof {
        assert(none@.map_values(|d: NotationDecl| d.symbol@) =~= Seq::<Seq<char>>::empty());
    }
    let symbols = lexer_symbols(src, none.as_slice());
    tokenize_with_symbols(src, &symbols)
}

/// Parse a file.
pub fn parse(src: &str) -> (r: Result<FolFile>)
    ensures
        r matches Ok(f) ==> f.src@ == src@ && imports_first(f.commands@) && notations_prec_ok(f.commands@),
        r matches Ok(f) ==> commands_well_formed(f.commands@),
        !lex_ok(src@, 0, file_symbols(src@, Seq::empty())) ==> r is Err,
{
    let none: Vec<NotationDecl> = Vec::new();
    proof {
        assert(none@.map_values(|d: NotationDecl| d.symbol@) =~= Seq::<Seq<char>>::empty());
    }
    parse_with_inherited(src, none.as_slice())
}

/// Parse a file whose imports bring `inherited` notations.
pub fn parse_with_inherited(src: &str, inherited: &[NotationDecl]) -> (r: Result<FolFile>)
    requires
        forall|k: int| 0 <= k < inherited@.len() ==> prec_ok((#[trigger] inherited@[k]).precedence),
    ensures
        r matches Ok(f) ==> f.src@ == src@ && imports_first(f.commands@) && notations_prec_ok(f.commands@),
        r matches Ok(f) ==> commands_well_formed(f.commands@),
        !lex_ok(src@, 0, file_symbols(src@, inherited@.map_values(|d: NotationDecl| d.symbol@))) ==> r is Err,
{
    let symbols = lexer_symbols(src, inherited);
    let tokens = tokenize_with_symbols(src, &symbols)?;
    let mut parser = Parser::with_inherited(tokens, inherited);
    parser.parse_file(src)
}

/// Parse a fragment (a `namespace` may stay open at the end).
pub fn parse_fragment(src: &str) -> (r: Result<FolFile>)
    ensures
        r matches Ok(f) ==> f.src@ == src@ && imports_first(f.commands@) && notations_prec_ok(f.commands@),
        r matches Ok(f) ==> commands_well_formed(f.commands@),
        !lex_ok(src@, 0, file_symbols(src@, Seq::empty())) ==> r is Err,
{
    let none: Vec<NotationDecl> = Vec::new();
    proof {
        assert(none@.map_values(|d: NotationDecl| d.symbol@) =~= Seq::<Seq<char>>::empty());
    }
    parse_fragment_with_inherited(src, none.as_slice())
}

pub fn parse_fragment_with_inherited(src: &str, inherited: &[NotationDecl]) -> (r: Result<
    FolFile,
>)
    requires
        forall|k: int| 0 <= k < inherited@.len() ==> prec_ok((#[trigger] inherited@[k]).precedence),
    ensures
        r matches Ok(f) ==> f.src@ == src@ && imports_first(f.commands@) && notations_prec_ok(f.commands@),
        r matches Ok(f) ==> commands_well_formed(f.commands@),
        !lex_ok(src@, 0, file_symbols(src@, inherited@.map_values(|d: NotationDecl| d.symbol@))) ==> r is Err,
{
    let symbols = lexer_symbols(src, inherited);
    let tokens = tokenize_with_symbols(src, &symbols)?;
    let mut parser = Parser::with_inherited(tokens, inherited);
    parser.parse_fragment(src)
}

/// Every built-in notation symbol.
pub fn builtin_notation_symbols() -> (r: Vec<String>)
    ensures
        r@.len() == 6,
        forall|k: int| 0 <= k < 6 ==> #[trigger] r@[k]@ == builtin_table()[k].0,
{
    let mut out: Vec<String> = Vec::new();
    let mut k: usize = 0;
    while k < 6
        invariant
            k <= 6,
            out@.len() == k,
            forall|m: int| 0 <= m < k ==> #[trigger] out@[m]@ == builtin_table()[m].0,
        decreases 6 - k,
    {
        let e = builtin_entry(k);
        out.push(String::from_str(e.0));
        k = k + 1;
    }
    out
}

} // verus!
