//! The lexer: source text to tokens.
//!
//! Order of the rules at each position (after whitespace and comments):
//! `∀`/`forall`, string literals, `->`/`→`, `-` (an error), the declared
//! notation symbols (longest match), `=`/`=>`, the punctuation, `#word`
//! identifiers, numerals, identifiers (which stop where a declared symbol
//! starts), single mathematical-operator characters, `?` (a hole).
use crate::diagnostic::{Diagnostic, DiagnosticKind, Result};
use crate::span::{Pos, Span};
use crate::text::{
    char_is_alphabetic, char_is_numeric, char_string, chars_of, concat3, is_ascii_digit,
    is_whitespace, spec_is_ascii_digit, str_eq, string_from_chars, unicode_alphabetic,
    unicode_numeric, utf8_len, spec_utf8_len_seq,
};
use vstd::prelude::*;
use vstd::slice::slice_subrange;

verus! {

#[derive(Debug, Clone, PartialEq, Eq)]
pub enum TokenKind {
    Ident(String),
    Num(String),
    Str(String),
    Sym(String),
    Forall,
    Arrow,
    FatArrow,
    Colon,
    ColonEq,
    LParen,
    RParen,
    LBrace,
    RBrace,
    Comma,
    Semicolon,
    Pipe,
    At,
    Plus,
    Hole,
    Langle,
    Rangle,
    Eof,
}

#[derive(Debug, Clone, PartialEq, Eq)]
pub struct Token {
    pub kind: TokenKind,
    pub span: Span,
}

/// A copy of a token kind.
pub fn clone_kind(k: &TokenKind) -> (r: TokenKind)
    ensures
        r == *k,
{
    match k {
        TokenKind::Ident(s) => TokenKind::Ident(s.clone()),
        TokenKind::Num(s) => TokenKind::Num(s.clone()),
        TokenKind::Str(s) => TokenKind::Str(s.clone()),
        TokenKind::Sym(s) => TokenKind::Sym(s.clone()),
        TokenKind::Forall => TokenKind::Forall,
        TokenKind::Arrow => TokenKind::Arrow,
        TokenKind::FatArrow => TokenKind::FatArrow,
        TokenKind::Colon => TokenKind::Colon,
        TokenKind::ColonEq => TokenKind::ColonEq,
        TokenKind::LParen => TokenKind::LParen,
        TokenKind::RParen => TokenKind::RParen,
        TokenKind::LBrace => TokenKind::LBrace,
        TokenKind::RBrace => TokenKind::RBrace,
        TokenKind::Comma => TokenKind::Comma,
        TokenKind::Semicolon => TokenKind::Semicolon,
        TokenKind::Pipe => TokenKind::Pipe,
        TokenKind::At => TokenKind::At,
        TokenKind::Plus => TokenKind::Plus,
        TokenKind::Hole => TokenKind::Hole,
        TokenKind::Langle => TokenKind::Langle,
        TokenKind::Rangle => TokenKind::Rangle,
        TokenKind::Eof => TokenKind::Eof,
    }
}

/// A copy of a token.
pub fn clone_token(t: &Token) -> (r: Token)
    ensures
        r == *t,
{
    Token { kind: clone_kind(&t.kind), span: t.span }
}

// ---------------------------------------------------------------------------
// Character classes.
// ---------------------------------------------------------------------------

/// A pictograph (the emoji blocks U+1F000–U+1FAFF): it may be part of a
/// name like a letter.
pub open spec fn spec_pictograph(c: char) -> bool {
    0x1F000 <= (c as u32) <= 0x1FAFF
}

pub open spec fn spec_ident_start(c: char) -> bool {
    unicode_alphabetic(c) || c == '_' || spec_pictograph(c)
}

pub open spec fn spec_ident_continue(c: char) -> bool {
    unicode_alphabetic(c) || unicode_numeric(c) || spec_pictograph(c) || c == '_' || c == '\''
        || c == '!' || c == '?' || c == '.'
}

/// A character that may start an identifier: a letter, `_` or a
/// pictograph.
pub fn is_ident_start(c: char) -> (r: bool)
    ensures
        r == spec_ident_start(c),
{
    c == '_' || (0x1F000 <= (c as u32) && (c as u32) <= 0x1FAFF) || char_is_alphabetic(c)
}

/// A character that may continue an identifier: a letter, a digit or one of
/// `_ ' ! ? .`.
pub fn is_ident_continue(c: char) -> (r: bool)
    ensures
        r == spec_ident_continue(c),
{
    c == '_' || c == '\'' || c == '!' || c == '?' || c == '.' || (0x1F000 <= (c as u32) && (c as u32)
        <= 0x1FAFF) || char_is_alphabetic(c) || char_is_numeric(c)
}

/// Characters that lex as a one-character symbol without a declaration:
/// the mathematical operator blocks (U+2200–U+22FF, U+2A00–U+2AFF) and the
/// miscellaneous mathematical symbols (U+27C0–U+27EF, U+2980–U+29FF).
pub open spec fn spec_math_symbol(c: char) -> bool {
    let u = c as u32;
    (0x2201 <= u && u <= 0x22ff) || (0x2a00 <= u && u <= 0x2aff) || (0x27c0 <= u && u <= 0x27e5)
        || (0x2980 <= u && u <= 0x29ff)
}

pub fn is_math_symbol(c: char) -> (r: bool)
    ensures
        r == spec_math_symbol(c),
{
    let u = c as u32;
    (0x2201 <= u && u <= 0x22ff) || (0x2a00 <= u && u <= 0x2aff) || (0x27c0 <= u && u <= 0x27e5)
        || (0x2980 <= u && u <= 0x29ff)
}

/// The command words that declare notations.
pub open spec fn spec_notation_command(w: Seq<char>) -> bool {
    w == "infix"@ || w == "infixl"@ || w == "infixr"@ || w == "prefix"@ || w == "postfix"@ || w
        == "notation"@ || w == "binder_notation"@
}

pub fn is_notation_command(w: &str) -> (r: bool)
    ensures
        r == spec_notation_command(w@),
{
    str_eq(w, "infix") || str_eq(w, "infixl") || str_eq(w, "infixr") || str_eq(w, "prefix")
        || str_eq(w, "postfix") || str_eq(w, "notation") || str_eq(w, "binder_notation")
}

/// A plain ASCII word (`in`, `e`, `Set`): the lexer would take it from the
/// identifiers of the whole file, so it cannot be a notation symbol.
pub open spec fn spec_ascii_word(s: Seq<char>) -> bool {
    &&& s.len() > 0
    &&& (('a' <= s[0] && s[0] <= 'z') || ('A' <= s[0] && s[0] <= 'Z') || s[0] == '_')
    &&& forall|j: int|
        0 <= j < s.len() ==> {
            let c = #[trigger] s[j];
            ('a' <= c && c <= 'z') || ('A' <= c && c <= 'Z') || ('0' <= c && c <= '9') || c
                == '_' || c == '\'' || c == '!' || c == '?' || c == '.'
        }
}

fn is_ascii_word_char(c: char) -> (r: bool)
    ensures
        r == (('a' <= c && c <= 'z') || ('A' <= c && c <= 'Z') || ('0' <= c && c <= '9') || c
            == '_' || c == '\'' || c == '!' || c == '?' || c == '.'),
{
    ('a' <= c && c <= 'z') || ('A' <= c && c <= 'Z') || ('0' <= c && c <= '9') || c == '_' || c
        == '\'' || c == '!' || c == '?' || c == '.'
}

pub fn is_ascii_word_symbol(s: &str) -> (r: bool)
    ensures
        r == spec_ascii_word(s@),
{
    let v = chars_of(s);
    if v.len() == 0 {
        return false;
    }
    let c0 = v[0];
    if !(('a' <= c0 && c0 <= 'z') || ('A' <= c0 && c0 <= 'Z') || c0 == '_') {
        return false;
    }
    let mut i: usize = 0;
    while i < v.len()
        invariant
            v@ == s@,
            i <= v@.len(),
            forall|j: int|
                0 <= j < i ==> {
                    let c = #[trigger] v@[j];
                    ('a' <= c && c <= 'z') || ('A' <= c && c <= 'Z') || ('0' <= c && c <= '9')
                        || c == '_' || c == '\'' || c == '!' || c == '?' || c == '.'
                },
        decreases v.len() - i,
    {
        if !is_ascii_word_char(v[i]) {
            assert(s@[i as int] == v@[i as int]);
            return false;
        }
        i = i + 1;
    }
    true
}

/// The part of a would-be symbol that the lexer consumes before it looks
/// at the symbol table (`∀`, `->`, `--`, `#`, `"`), if any.
pub open spec fn reserved_at(s: Seq<char>, j: int) -> bool {
    s[j] == '∀' || s[j] == '#' || s[j] == '"' || (s[j] == '-' && j + 1 < s.len() && (s[j + 1]
        == '>' || s[j + 1] == '-'))
}

pub open spec fn spec_reserved_in_symbol(s: Seq<char>) -> bool {
    exists|j: int| 0 <= j < s.len() && #[trigger] reserved_at(s, j)
}

pub fn lexer_reserved_symbol_char(s: &str) -> (r: Option<String>)
    ensures
        r is Some <==> spec_reserved_in_symbol(s@),
{
    let v = chars_of(s);
    let mut i: usize = 0;
    while i < v.len()
        invariant
            v@ == s@,
            i <= v@.len(),
            forall|j: int| 0 <= j < i ==> !#[trigger] reserved_at(v@, j),
        decreases v.len() - i,
    {
        let c = v[i];
        if c == '∀' || c == '#' || c == '"' {
            assert(reserved_at(s@, i as int));
            return Some(char_string(c));
        }
        if c == '-' && i + 1 < v.len() && (v[i + 1] == '>' || v[i + 1] == '-') {
            assert(reserved_at(s@, i as int));
            let pair: Vec<char> = vec![c, v[i + 1]];
            return Some(string_from_chars(pair.as_slice()));
        }
        i = i + 1;
    }
    None
}

/// The teaching hint for a `-` in a module name.
pub const DASH_HINT: &'static str =
    "`-` 不是模块名字符（官方 Lean 同样如此）：文件名里的横线不能出现在 import 名里。要么改文件名，要么建一个合法名字的模块文件。";

// ---------------------------------------------------------------------------
// Token streams.
// ---------------------------------------------------------------------------

/// A lexed stream: at least one token, exactly the last one is `Eof`, and the
/// spans are ordered and do not overlap.
/// The symbol `sym` is written in `chars` from index `i` on.
pub open spec fn symbol_at(sym: Seq<char>, chars: Seq<char>, i: int) -> bool {
    &&& 0 <= i
    &&& i + sym.len() <= chars.len()
    &&& chars.subrange(i, i + sym.len()) == sym
}

/// Whitespace, a line comment (`--`) or a block comment (`/-`) starts at
/// index `i` of `chars`.
pub open spec fn trivia_at(chars: Seq<char>, i: int) -> bool {
    &&& 0 <= i < chars.len()
    &&& {
        ||| crate::text::spec_is_whitespace(chars[i])
        ||| (chars[i] == '-' && i + 1 < chars.len() && chars[i + 1] == '-')
        ||| (chars[i] == '/' && i + 1 < chars.len() && chars[i + 1] == '-')
    }
}

/// A string literal whose content starts at index `j` is closed by a `"`
/// (a backslash takes the character after it into the content).
pub open spec fn string_closes(chars: Seq<char>, j: int) -> bool
    decreases chars.len() - j,
{
    if j < 0 || j >= chars.len() {
        false
    } else if chars[j] == '"' {
        true
    } else if chars[j] == '\\' && j + 1 < chars.len() {
        string_closes(chars, j + 2)
    } else {
        string_closes(chars, j + 1)
    }
}

/// No token can be read at index `i` of `chars` (not trivia): an
/// unclosed string, a lone `-`, a `#` not followed by a name, or a
/// character that starts no token.
pub open spec fn lex_fails(chars: Seq<char>, i: int, symbols: Seq<Seq<char>>) -> bool {
    let c = chars[i];
    let next_is = |d: char| i + 1 < chars.len() && chars[i + 1] == d;
    if c == '∀' || c == '→' {
        false
    } else if c == '"' {
        !string_closes(chars, i + 1)
    } else if c == '-' {
        !next_is('>')
    } else if symbol_starts(symbols, chars, i) {
        false
    } else if c == '=' || c == ':' || c == '(' || c == ')' || c == '{' || c == '}' || c == ','
        || c == ';' || c == '|' || c == '@' || c == '+' || c == '⟨' || c == '⟩' {
        false
    } else if c == '#' {
        !(i + 1 < chars.len() && spec_ident_start(chars[i + 1]))
    } else {
        !(crate::text::spec_is_ascii_digit(c) || spec_ident_start(c) || spec_math_symbol(c))
    }
}

/// Some non-empty symbol of `symbols` is written in `chars` from `i` on.
pub open spec fn symbol_starts(symbols: Seq<Seq<char>>, chars: Seq<char>, i: int) -> bool {
    exists|k: int| 0 <= k < symbols.len() && symbols[k].len() > 0 && symbol_at(#[trigger] symbols[k], chars, i)
}

/// Where a block comment opened before `j` ends: after the `-/` that brings
/// the nesting `depth` to zero; `None` when the text ends first.
pub open spec fn comment_end(chars: Seq<char>, j: int, depth: nat) -> Option<int>
    decreases chars.len() - j,
{
    if depth == 0 {
        Some(j)
    } else if j < 0 || j >= chars.len() {
        None
    } else if chars[j] == '-' && j + 1 < chars.len() && chars[j + 1] == '/' {
        comment_end(chars, j + 2, (depth - 1) as nat)
    } else if chars[j] == '/' && j + 1 < chars.len() && chars[j + 1] == '-' {
        comment_end(chars, j + 2, depth + 1)
    } else {
        comment_end(chars, j + 1, depth)
    }
}

/// Where the trivia (white space, `--` line comments, nested `/- … -/`
/// block comments) from `i` on ends; `None` at an unclosed block comment.
pub open spec fn skip_end(chars: Seq<char>, i: int) -> Option<int>
    decreases chars.len() - i,
{
    if i < 0 || i >= chars.len() {
        Some(i)
    } else if crate::text::spec_is_whitespace(chars[i]) {
        skip_end(chars, i + 1)
    } else if chars[i] == '-' && i + 1 < chars.len() && chars[i + 1] == '-' {
        let e = next_newline(chars, i + 2);
        if i < e <= chars.len() {
            skip_end(chars, e)
        } else {
            None
        }
    } else if chars[i] == '/' && i + 1 < chars.len() && chars[i + 1] == '-' {
        match comment_end(chars, i + 2, 1) {
            Some(k) => if i < k <= chars.len() {
                skip_end(chars, k)
            } else {
                None
            },
            None => None,
        }
    } else {
        Some(i)
    }
}

/// The index after the closing `"` of a string whose content starts at `j`.
pub open spec fn string_end(chars: Seq<char>, j: int) -> int
    decreases chars.len() - j,
{
    if j < 0 || j >= chars.len() {
        chars.len() as int
    } else if chars[j] == '"' {
        j + 1
    } else if chars[j] == '\\' && j + 1 < chars.len() {
        string_end(chars, j + 2)
    } else {
        string_end(chars, j + 1)
    }
}

/// The first index from `j` on where an identifier stops: a character that
/// cannot continue it, or the start of a symbol.
pub open spec fn ident_rest_end(chars: Seq<char>, j: int, symbols: Seq<Seq<char>>) -> int
    decreases chars.len() - j,
{
    if j < 0 || j >= chars.len() || !spec_ident_continue(chars[j]) || symbol_starts(symbols, chars, j) {
        j
    } else {
        ident_rest_end(chars, j + 1, symbols)
    }
}

/// The first index from `j` on that holds no ASCII digit.
pub open spec fn digits_end(chars: Seq<char>, j: int) -> int
    decreases chars.len() - j,
{
    if j < 0 || j >= chars.len() || !crate::text::spec_is_ascii_digit(chars[j]) {
        j
    } else {
        digits_end(chars, j + 1)
    }
}

/// The index after the token that starts at `i` (where one can be read).
pub open spec fn token_end(chars: Seq<char>, i: int, symbols: Seq<Seq<char>>) -> int {
    let c = chars[i];
    let next_is = |d: char| i + 1 < chars.len() && chars[i + 1] == d;
    if c == '∀' || c == '→' {
        i + 1
    } else if c == '"' {
        string_end(chars, i + 1)
    } else if c == '-' {
        i + 2
    } else if symbol_starts(symbols, chars, i) {
        i + longest_symbol(symbols, chars, i)
    } else if c == '=' {
        if next_is('>') {
            i + 2
        } else {
            i + 1
        }
    } else if c == ':' {
        if next_is('=') {
            i + 2
        } else {
            i + 1
        }
    } else if c == '(' || c == ')' || c == '{' || c == '}' || c == ',' || c == ';' || c == '|' || c == '@'
        || c == '+' || c == '⟨' || c == '⟩' {
        i + 1
    } else if c == '#' {
        ident_rest_end(chars, i + 2, symbols)
    } else if crate::text::spec_is_ascii_digit(c) {
        digits_end(chars, i)
    } else if spec_ident_start(c) {
        ident_rest_end(chars, i + 1, symbols)
    } else {
        i + 1
    }
}

/// The text from index `i` on lexes: after its trivia it ends, or a token
/// can be read and the rest lexes.
pub open spec fn lex_ok(chars: Seq<char>, i: int, symbols: Seq<Seq<char>>) -> bool
    decreases chars.len() - i,
{
    match skip_end(chars, i) {
        None => false,
        Some(j) => if j >= chars.len() {
            true
        } else if lex_fails(chars, j, symbols) {
            false
        } else if j >= i && j < token_end(chars, j, symbols) <= chars.len() {
            lex_ok(chars, token_end(chars, j, symbols), symbols)
        } else {
            false
        },
    }
}

/// A token kind as plain values (texts for the kinds that carry one).
pub ghost enum LexKind {
    Ident(Seq<char>),
    Num(Seq<char>),
    Str(Seq<char>),
    Sym(Seq<char>),
    Forall,
    Arrow,
    FatArrow,
    Colon,
    ColonEq,
    LParen,
    RParen,
    LBrace,
    RBrace,
    Comma,
    Semicolon,
    Pipe,
    At,
    Plus,
    Hole,
    Langle,
    Rangle,
    Eof,
}

pub open spec fn lex_kind(k: TokenKind) -> LexKind {
    match k {
        TokenKind::Ident(t) => LexKind::Ident(t@),
        TokenKind::Num(t) => LexKind::Num(t@),
        TokenKind::Str(t) => LexKind::Str(t@),
        TokenKind::Sym(t) => LexKind::Sym(t@),
        TokenKind::Forall => LexKind::Forall,
        TokenKind::Arrow => LexKind::Arrow,
        TokenKind::FatArrow => LexKind::FatArrow,
        TokenKind::Colon => LexKind::Colon,
        TokenKind::ColonEq => LexKind::ColonEq,
        TokenKind::LParen => LexKind::LParen,
        TokenKind::RParen => LexKind::RParen,
        TokenKind::LBrace => LexKind::LBrace,
        TokenKind::RBrace => LexKind::RBrace,
        TokenKind::Comma => LexKind::Comma,
        TokenKind::Semicolon => LexKind::Semicolon,
        TokenKind::Pipe => LexKind::Pipe,
        TokenKind::At => LexKind::At,
        TokenKind::Plus => LexKind::Plus,
        TokenKind::Hole => LexKind::Hole,
        TokenKind::Langle => LexKind::Langle,
        TokenKind::Rangle => LexKind::Rangle,
        TokenKind::Eof => LexKind::Eof,
    }
}

/// A token as plain values: its kind and its byte offsets.
pub open spec fn tok_view(t: Token) -> (LexKind, int, int) {
    (lex_kind(t.kind), t.span.start.offset as int, t.span.end.offset as int)
}

pub open spec fn tok_views(v: Seq<Token>) -> Seq<(LexKind, int, int)> {
    v.map_values(|t: Token| tok_view(t))
}

/// The content of a string literal whose text starts at `j`: up to the
/// closing `"`, a backslash taking the character after it.
pub open spec fn string_content(chars: Seq<char>, j: int) -> Seq<char>
    decreases chars.len() - j,
{
    if j < 0 || j >= chars.len() || chars[j] == '"' {
        Seq::empty()
    } else if chars[j] == '\\' && j + 1 < chars.len() {
        seq![chars[j + 1]] + string_content(chars, j + 2)
    } else {
        seq![chars[j]] + string_content(chars, j + 1)
    }
}

/// The kind of the token that starts at `i` (where one can be read).
pub open spec fn token_kind_at(chars: Seq<char>, i: int, symbols: Seq<Seq<char>>) -> LexKind {
    let c = chars[i];
    let next_is = |d: char| i + 1 < chars.len() && chars[i + 1] == d;
    let e = token_end(chars, i, symbols);
    if c == '∀' {
        LexKind::Forall
    } else if c == '"' {
        LexKind::Str(string_content(chars, i + 1))
    } else if c == '-' || c == '→' {
        LexKind::Arrow
    } else if symbol_starts(symbols, chars, i) {
        LexKind::Sym(chars.subrange(i, e))
    } else if c == '=' {
        if next_is('>') {
            LexKind::FatArrow
        } else {
            LexKind::Sym(seq!['='])
        }
    } else if c == ':' {
        if next_is('=') {
            LexKind::ColonEq
        } else {
            LexKind::Colon
        }
    } else if c == '(' {
        LexKind::LParen
    } else if c == ')' {
        LexKind::RParen
    } else if c == '{' {
        LexKind::LBrace
    } else if c == '}' {
        LexKind::RBrace
    } else if c == ',' {
        LexKind::Comma
    } else if c == ';' {
        LexKind::Semicolon
    } else if c == '|' {
        LexKind::Pipe
    } else if c == '@' {
        LexKind::At
    } else if c == '+' {
        LexKind::Plus
    } else if c == '⟨' {
        LexKind::Langle
    } else if c == '⟩' {
        LexKind::Rangle
    } else if c == '#' {
        LexKind::Ident(chars.subrange(i, e))
    } else if crate::text::spec_is_ascii_digit(c) {
        LexKind::Num(chars.subrange(i, e))
    } else if spec_ident_start(c) {
        if chars.subrange(i, e) == "forall"@ {
            LexKind::Forall
        } else {
            LexKind::Ident(chars.subrange(i, e))
        }
    } else {
        LexKind::Sym(seq![c])
    }
}

/// The tokens of the text from index `i` on (for text that lexes): each
/// with its byte offsets, then the end marker.
pub open spec fn lex_tokens(chars: Seq<char>, i: int, symbols: Seq<Seq<char>>) -> Seq<(LexKind, int, int)>
    decreases chars.len() - i,
{
    match skip_end(chars, i) {
        None => Seq::empty(),
        Some(j) => if j >= chars.len() {
            seq![(LexKind::Eof, spec_utf8_len_seq(chars.take(j)) as int, spec_utf8_len_seq(chars.take(j)) as int)]
        } else if lex_fails(chars, j, symbols) {
            Seq::empty()
        } else if j >= i && j < token_end(chars, j, symbols) <= chars.len() {
            seq![
                (
                    token_kind_at(chars, j, symbols),
                    spec_utf8_len_seq(chars.take(j)) as int,
                    spec_utf8_len_seq(chars.take(token_end(chars, j, symbols))) as int,
                ),
            ] + lex_tokens(chars, token_end(chars, j, symbols), symbols)
        } else {
            Seq::empty()
        },
    }
}

/// The non-empty texts of `v`, in order.
pub open spec fn nonempty_texts(v: Seq<Seq<char>>) -> Seq<Seq<char>>
    decreases v.len(),
{
    if v.len() == 0 {
        Seq::empty()
    } else if v.last().len() > 0 {
        nonempty_texts(v.drop_last()).push(v.last())
    } else {
        nonempty_texts(v.drop_last())
    }
}

/// The symbols as text.
pub open spec fn sym_views(v: Seq<Vec<char>>) -> Seq<Seq<char>> {
    v.map_values(|s: Vec<char>| s@)
}

/// `n` is the length of the longest symbol written in `chars` from `i` on.
pub open spec fn is_longest(symbols: Seq<Seq<char>>, chars: Seq<char>, i: int, n: int) -> bool {
    &&& exists|k: int| 0 <= k < symbols.len() && symbols[k].len() == n && #[trigger] symbol_at(symbols[k], chars, i)
    &&& forall|k: int| 0 <= k < symbols.len() && #[trigger] symbol_at(symbols[k], chars, i) ==> symbols[k].len() <= n
}

proof fn lemma_longest_unique(symbols: Seq<Seq<char>>, chars: Seq<char>, i: int, n: int)
    requires
        is_longest(symbols, chars, i, n),
    ensures
        longest_symbol(symbols, chars, i) == n,
{
    let m = longest_symbol(symbols, chars, i);
    assert(is_longest(symbols, chars, i, m));
    let a = choose|k: int| 0 <= k < symbols.len() && symbols[k].len() == n && #[trigger] symbol_at(symbols[k], chars, i);
    let b = choose|k: int| 0 <= k < symbols.len() && symbols[k].len() == m && #[trigger] symbol_at(symbols[k], chars, i);
    assert(symbols[a].len() <= m);
    assert(symbols[b].len() <= n);
}

/// The length of the longest symbol written in `chars` from `i` on.
pub open spec fn longest_symbol(symbols: Seq<Seq<char>>, chars: Seq<char>, i: int) -> int {
    choose|n: int| is_longest(symbols, chars, i, n)
}

pub open spec fn lexed(t: Seq<Token>) -> bool {
    &&& t.len() > 0
    &&& t.last().kind is Eof
    &&& forall|i: int| 0 <= i < t.len() - 1 ==> !(#[trigger] t[i].kind is Eof)
    &&& forall|i: int|
        0 <= i < t.len() ==> (#[trigger] t[i]).span.start.offset <= t[i].span.end.offset
    &&& forall|i: int, j: int|
        0 <= i < j < t.len() ==> (#[trigger] t[i]).span.end.offset <= (#[trigger] t[j]).span.start.offset
}

/// The tokens produced so far are ordered and end at or before `offset`.
pub open spec fn ordered_before(t: Seq<Token>, offset: usize) -> bool {
    &&& forall|i: int| 0 <= i < t.len() ==> !(#[trigger] t[i].kind is Eof)
    &&& forall|i: int|
        0 <= i < t.len() ==> (#[trigger] t[i]).span.start.offset <= t[i].span.end.offset
    &&& forall|i: int| 0 <= i < t.len() ==> (#[trigger] t[i]).span.end.offset <= offset
    &&& forall|i: int, j: int|
        0 <= i < j < t.len() ==> (#[trigger] t[i]).span.end.offset <= (#[trigger] t[j]).span.start.offset
}

struct Lexer {
    chars: Vec<char>,
    i: usize,
    offset: usize,
    line: usize,
    column: usize,
    symbols: Vec<Vec<char>>,
    import_line: bool,
}

impl Lexer {
    spec fn inv(&self) -> bool {
        &&& self.i <= self.chars@.len()
        &&& self.chars@.len() <= usize::MAX
        &&& self.line >= 1
        &&& self.column >= 1
        &&& spec_utf8_len_seq(self.chars@) <= isize::MAX
        &&& self.offset == spec_utf8_len_seq(self.chars@.take(self.i as int))
    }

    fn pos(&self) -> (r: Pos)
        ensures
            r.offset == self.offset,
            r.line == self.line,
            r.column == self.column,
    {
        Pos { offset: self.offset, line: self.line, column: self.column }
    }

    fn at(&self, k: usize) -> (r: Option<char>)
        ensures
            self.i + k < self.chars@.len() ==> r == Some(self.chars@[self.i + k]),
            self.i + k >= self.chars@.len() ==> r is None,
    {
        if k < self.chars.len() && self.i < self.chars.len() - k {
            Some(self.chars[self.i + k])
        } else {
            None
        }
    }

    /// Consume one character, tracking the byte offset, line and column.
    fn advance(&mut self)
        requires
            old(self).inv(),
            old(self).i < old(self).chars@.len(),
        ensures
            final(self).inv(),
            final(self).i == old(self).i + 1,
            final(self).chars == old(self).chars,
            final(self).symbols == old(self).symbols,
            final(self).offset >= old(self).offset,
    {
        let c = self.chars[self.i];
        proof {
            crate::text::lemma_utf8_len_prefix(self.chars@, self.i as int);
        }
        self.offset = self.offset.saturating_add(utf8_len(c));
        if c == '\n' {
            self.line = self.line.saturating_add(1);
            self.column = 1;
            self.import_line = false;
        } else {
            self.column = self.column.saturating_add(1);
        }
        self.i = self.i + 1;
    }

    /// Length of the longest declared symbol that starts at the cursor
    /// (0 when none does).
    fn symbol_len_at(&self) -> (r: usize)
        requires
            self.inv(),
        ensures
            self.i + r <= self.chars@.len(),
            forall|k: int|
                0 <= k < self.symbols@.len() && symbol_at(self.symbols@[k]@, self.chars@, self.i as int)
                    ==> #[trigger] self.symbols@[k]@.len() <= r,
            r > 0 ==> exists|k: int|
                0 <= k < self.symbols@.len() && self.symbols@[k]@ =~= self.chars@.subrange(
                    self.i as int,
                    self.i + r,
                ),
            r > 0 <==> symbol_starts(sym_views(self.symbols@), self.chars@, self.i as int),
            r > 0 ==> r == longest_symbol(sym_views(self.symbols@), self.chars@, self.i as int),
    {
        let mut best: usize = 0;
        let mut k: usize = 0;
        while k < self.symbols.len()
            invariant
                self.inv(),
                k <= self.symbols@.len(),
                self.i + best <= self.chars@.len(),
                forall|m: int|
                    0 <= m < k && symbol_at(self.symbols@[m]@, self.chars@, self.i as int)
                        ==> #[trigger] self.symbols@[m]@.len() <= best,
                best > 0 ==> exists|m: int|
                    0 <= m < self.symbols@.len() && self.symbols@[m]@ =~= self.chars@.subrange(
                        self.i as int,
                        self.i + best,
                    ),
            decreases self.symbols.len() - k,
        {
            let sym = &self.symbols[k];
            let n = sym.len();
            if n > best && n <= self.chars.len() - self.i {
                let mut j: usize = 0;
                let mut same = true;
                while j < n
                    invariant
                        self.inv(),
                        n == sym@.len(),
                        self.i + n <= self.chars@.len(),
                        j <= n,
                        same ==> forall|q: int| 0 <= q < j ==> sym@[q] == self.chars@[self.i + q],
                        !same ==> exists|q: int| 0 <= q < j && sym@[q] != self.chars@[self.i + q],
                    decreases n - j,
                {
                    if sym[j] != self.chars[self.i + j] {
                        same = false;
                    }
                    j = j + 1;
                }
                if same {
                    best = n;
                    assert(sym@ =~= self.chars@.subrange(self.i as int, self.i + best));
                } else {
                    proof {
                        let q = choose|q: int| 0 <= q < j && sym@[q] != self.chars@[self.i + q];
                        if symbol_at(sym@, self.chars@, self.i as int) {
                            assert(self.chars@.subrange(self.i as int, self.i + sym@.len())[q] == self.chars@[self.i + q]);
                        }
                    }
                }
            }
            k = k + 1;
        }
        proof {
            let sv = sym_views(self.symbols@);
            let i = self.i as int;
            if best > 0 {
                let m = choose|m: int|
                    0 <= m < self.symbols@.len() && self.symbols@[m]@ =~= self.chars@.subrange(i, i + best);
                assert(sv[m] == self.symbols@[m]@);
                assert(symbol_at(sv[m], self.chars@, i));
                assert(symbol_starts(sv, self.chars@, i));
                assert forall|q: int| 0 <= q < sv.len() && #[trigger] symbol_at(sv[q], self.chars@, i) implies sv[q].len()
                    <= best by {
                    assert(sv[q] == self.symbols@[q]@);
                };
                assert(is_longest(sv, self.chars@, i, best as int));
                lemma_longest_unique(sv, self.chars@, i, best as int);
            } else if symbol_starts(sv, self.chars@, i) {
                let q = choose|q: int| 0 <= q < sv.len() && sv[q].len() > 0 && #[trigger] symbol_at(sv[q], self.chars@, i);
                assert(sv[q] == self.symbols@[q]@);
                assert(self.symbols@[q]@.len() <= best);
            }
        }
        best
    }

    /// Skip whitespace, `--` line comments and `/- … -/` block comments
    /// (which nest).
    fn skip_trivia(&mut self) -> (r: Result<()>)
        requires
            old(self).inv(),
        ensures
            final(self).inv(),
            final(self).i >= old(self).i,
            final(self).chars == old(self).chars,
            final(self).symbols == old(self).symbols,
            final(self).offset >= old(self).offset,
            r is Ok ==> !trivia_at(final(self).chars@, final(self).i as int),
            r is Err ==> final(self).i == final(self).chars@.len(),
            r is Ok <==> skip_end(old(self).chars@, old(self).i as int) is Some,
            r is Ok ==> skip_end(old(self).chars@, old(self).i as int) == Some(final(self).i as int),
    {
        loop
            invariant
                self.inv(),
                self.i >= old(self).i,
                self.chars == old(self).chars,
                self.symbols == old(self).symbols,
                self.offset >= old(self).offset,
                skip_end(self.chars@, self.i as int) == skip_end(old(self).chars@, old(self).i as int),
            decreases self.chars@.len() - self.i,
        {
            let c = match self.at(0) {
                Some(c) => c,
                None => return Ok(()),
            };
            let ghost it = self.i;
            if is_whitespace(c) {
                self.advance();
            } else if c == '-' && self.at(1) == Some('-') {
                self.advance();
                self.advance();
                while self.i < self.chars.len() && self.chars[self.i] != '\n'
                    invariant
                        self.inv(),
                        self.i > it,
                        self.i >= it + 2,
                        self.i >= old(self).i,
                        self.chars == old(self).chars,
                        self.symbols == old(self).symbols,
                        self.offset >= old(self).offset,
                        next_newline(self.chars@, self.i as int) == next_newline(self.chars@, it + 2),
                        skip_end(self.chars@, it as int) == skip_end(old(self).chars@, old(self).i as int),
                        self.chars@[it as int] == '-' && it + 1 < self.chars@.len() && self.chars@[it + 1] == '-',
                        !crate::text::spec_is_whitespace(self.chars@[it as int]),
                    decreases self.chars@.len() - self.i,
                {
                    self.advance();
                }
            } else if c == '/' && self.at(1) == Some('-') {
                let start = self.pos();
                self.advance();
                self.advance();
                let mut depth: usize = 1;
                while depth > 0
                    invariant
                        self.inv(),
                        self.i > it,
                        self.i >= it + 2,
                        depth <= self.i,
                        self.i >= old(self).i,
                        self.chars == old(self).chars,
                        self.symbols == old(self).symbols,
                        self.offset >= old(self).offset,
                        comment_end(self.chars@, self.i as int, depth as nat) == comment_end(self.chars@, it + 2, 1),
                        skip_end(self.chars@, it as int) == skip_end(old(self).chars@, old(self).i as int),
                        self.chars@[it as int] == '/' && it + 1 < self.chars@.len() && self.chars@[it + 1] == '-',
                        !crate::text::spec_is_whitespace(self.chars@[it as int]),
                    decreases self.chars@.len() - self.i,
                {
                    if self.i >= self.chars.len() {
                        return Err(
                            Diagnostic::new(
                                DiagnosticKind::UnexpectedToken {
                                    found: String::from_str("end of file"),
                                    expected: String::from_str("`-/` closing the block comment"),
                                },
                                Span::new(start, self.pos()),
                                String::from_str("块注释 `/-` 没有闭合：缺少 `-/`"),
                            ),
                        );
                    }
                    if self.chars[self.i] == '-' && self.at(1) == Some('/') {
                        self.advance();
                        self.advance();
                        depth = depth - 1;
                    } else if self.chars[self.i] == '/' && self.at(1) == Some('-') {
                        self.advance();
                        self.advance();
                        depth = depth.saturating_add(1);
                    } else {
                        self.advance();
                    }
                }
            } else {
                return Ok(());
            }
        }
    }

    fn error_here(&self, found: String, expected: &str, message: String) -> (r: Diagnostic)
        ensures
            r.kind matches DiagnosticKind::UnexpectedToken { found: f, expected: e } && f == found
                && e@ == expected@,
            r.span.start == r.span.end,
            r.span.start.offset == self.offset,
            r.span.start.line == self.line,
            r.span.start.column == self.column,
            r.message == message,
    {
        let p = self.pos();
        Diagnostic::new(
            DiagnosticKind::UnexpectedToken { found, expected: String::from_str(expected) },
            Span::new(p, p),
            message,
        )
    }

    /// Consume `n` characters.
    fn advance_n(&mut self, n: usize)
        requires
            old(self).inv(),
            old(self).i + n <= old(self).chars@.len(),
        ensures
            final(self).inv(),
            final(self).i == old(self).i + n,
            final(self).chars == old(self).chars,
            final(self).symbols == old(self).symbols,
            final(self).offset >= old(self).offset,
    {
        let mut k: usize = 0;
        while k < n
            invariant
                self.inv(),
                k <= n,
                self.i == old(self).i + k,
                old(self).i + n <= self.chars@.len(),
                self.chars == old(self).chars,
                self.symbols == old(self).symbols,
                self.offset >= old(self).offset,
            decreases n - k,
        {
            self.advance();
            k = k + 1;
        }
    }

    /// Consume characters while they may continue an identifier and no
    /// declared symbol starts.
    fn take_ident_rest(&mut self, out: &mut Vec<char>)
        requires
            old(self).inv(),
        ensures
            final(self).inv(),
            final(self).i >= old(self).i,
            final(self).chars == old(self).chars,
            final(self).symbols == old(self).symbols,
            final(self).offset >= old(self).offset,
            final(out)@ == old(out)@ + final(self).chars@.subrange(old(self).i as int, final(self).i as int),
            forall|j: int|
                old(self).i <= j < final(self).i ==> spec_ident_continue(#[trigger] final(self).chars@[j])
                    && !symbol_starts(sym_views(final(self).symbols@), final(self).chars@, j),
            final(self).i < final(self).chars@.len() ==> !spec_ident_continue(
                final(self).chars@[final(self).i as int],
            ) || symbol_starts(sym_views(final(self).symbols@), final(self).chars@, final(self).i as int),
            final(self).i == ident_rest_end(old(self).chars@, old(self).i as int, sym_views(old(self).symbols@)),
    {
        let mut go = true;
        while go && self.i < self.chars.len()
            invariant
                self.inv(),
                self.i >= old(self).i,
                self.chars == old(self).chars,
                self.symbols == old(self).symbols,
                self.offset >= old(self).offset,
                out@ == old(out)@ + self.chars@.subrange(old(self).i as int, self.i as int),
                forall|j: int|
                    old(self).i <= j < self.i ==> spec_ident_continue(#[trigger] self.chars@[j])
                        && !symbol_starts(sym_views(self.symbols@), self.chars@, j),
                !go ==> self.i < self.chars@.len() && (!spec_ident_continue(self.chars@[self.i as int])
                    || symbol_starts(sym_views(self.symbols@), self.chars@, self.i as int)),
                ident_rest_end(self.chars@, self.i as int, sym_views(self.symbols@)) == ident_rest_end(
                    old(self).chars@,
                    old(self).i as int,
                    sym_views(old(self).symbols@),
                ),
            decreases self.chars@.len() - self.i, if go { 1int } else { 0int },
        {
            let c = self.chars[self.i];
            let n = self.symbol_len_at();
            proof {
                if n > 0 {
                    let k = choose|k: int|
                        0 <= k < self.symbols@.len() && self.symbols@[k]@ =~= self.chars@.subrange(
                            self.i as int,
                            self.i + n,
                        );
                    assert(symbol_at(self.symbols@[k]@, self.chars@, self.i as int));
                    assert(symbol_starts(sym_views(self.symbols@), self.chars@, self.i as int));
                } else if symbol_starts(sym_views(self.symbols@), self.chars@, self.i as int) {
                    let k = choose|k: int|
                        0 <= k < self.symbols@.len() && self.symbols@[k]@.len() > 0 && symbol_at(
                            #[trigger] self.symbols@[k]@,
                            self.chars@,
                            self.i as int,
                        );
                    assert(self.symbols@[k]@.len() <= n);
                }
            }
            if !is_ident_continue(c) || n > 0 {
                go = false;
            } else {
                let ghost i0 = self.i;
                out.push(c);
                self.advance();
                proof {
                    assert(self.chars@.subrange(old(self).i as int, self.i as int) =~= self.chars@.subrange(
                        old(self).i as int,
                        i0 as int,
                    ).push(c));
                }
            }
        }
    }

    /// One token at a non-trivia position (`i < len`).
    fn next_token(&mut self) -> (r: Result<Token>)
        requires
            old(self).inv(),
            old(self).i < old(self).chars@.len(),
        ensures
            final(self).inv(),
            final(self).chars == old(self).chars,
            final(self).symbols == old(self).symbols,
            final(self).offset >= old(self).offset,
            r is Ok ==> final(self).i > old(self).i,
            r is Err <==> lex_fails(old(self).chars@, old(self).i as int, sym_views(old(self).symbols@)),
            r is Ok ==> final(self).i == token_end(old(self).chars@, old(self).i as int, sym_views(old(self).symbols@)),
            r matches Ok(t) ==> lex_kind(t.kind) == token_kind_at(
                old(self).chars@,
                old(self).i as int,
                sym_views(old(self).symbols@),
            ),
            r matches Ok(t) ==> {
                &&& !(t.kind is Eof)
                &&& t.span.start.offset == old(self).offset
                &&& t.span.end.offset == final(self).offset
            },
    {
        let start = self.pos();
        let c = self.chars[self.i];
        let kind: TokenKind;
        if c == '∀' {
            self.advance();
            kind = TokenKind::Forall;
        } else if c == '"' {
            self.advance();
            let mut content: Vec<char> = Vec::new();
            loop
                invariant_except_break
                    string_closes(self.chars@, self.i as int) == string_closes(self.chars@, old(self).i + 1),
                    string_end(self.chars@, self.i as int) == string_end(self.chars@, old(self).i + 1),
                    content@ + string_content(self.chars@, self.i as int) == string_content(self.chars@, old(self).i + 1),
                invariant
                    old(self).chars@[old(self).i as int] == '"',
                    self.inv(),
                    self.i > old(self).i,
                    self.chars == old(self).chars,
                    self.symbols == old(self).symbols,
                    self.offset >= old(self).offset,
                ensures
                    string_closes(self.chars@, old(self).i + 1),
                    self.i == string_end(self.chars@, old(self).i + 1),
                    content@ == string_content(self.chars@, old(self).i + 1),
                    self.inv(),
                    self.i > old(self).i,
                    self.chars == old(self).chars,
                    self.symbols == old(self).symbols,
                    self.offset >= old(self).offset,
                decreases self.chars@.len() - self.i,
            {
                if self.i >= self.chars.len() {
                    proof {
                        assert(!string_closes(self.chars@, self.i as int));
                        assert(self.chars@[old(self).i as int] == '"');
                        assert(lex_fails(old(self).chars@, old(self).i as int, sym_views(old(self).symbols@)));
                    }
                    return Err(
                        Diagnostic::new(
                            DiagnosticKind::UnexpectedToken {
                                found: String::from_str("end of file"),
                                expected: String::from_str("`\"` closing the string literal"),
                            },
                            Span::new(start, self.pos()),
                            String::from_str("字符串字面量没有闭合：缺少结尾的 `\"`"),
                        ),
                    );
                }
                let d = self.chars[self.i];
                let ghost j = self.i as int;
                let ghost before = content@;
                self.advance();
                if d == '"' {
                    proof {
                        assert(content@ + Seq::<char>::empty() =~= content@);
                    }
                    break ;
                }
                if d == '\\' && self.i < self.chars.len() {
                    content.push(self.chars[self.i]);
                    proof {
                        assert(before + string_content(self.chars@, j) =~= content@ + string_content(self.chars@, j + 2));
                    }
                    self.advance();
                } else {
                    content.push(d);
                    proof {
                        assert(before + string_content(self.chars@, j) =~= content@ + string_content(self.chars@, j + 1));
                    }
                }
            }
            kind = TokenKind::Str(string_from_chars(content.as_slice()));
        } else if c == '-' {
            if self.at(1) == Some('>') {
                self.advance();
                self.advance();
                kind = TokenKind::Arrow;
            } else if self.import_line {
                let p = self.pos();
                return Err(
                    Diagnostic::new(
                        DiagnosticKind::ImportNotAModuleName {
                            module: String::from_str("-"),
                            message: String::from_str("`import` 的模块名里不能有 `-`"),
                            hint: DASH_HINT,
                        },
                        Span::new(p, p),
                        String::from_str("`import` 的模块名里不能有 `-`"),
                    ),
                );
            } else {
                return Err(
                    self.error_here(
                        String::from_str("`-`"),
                        "`->` or `--`",
                        String::from_str("这里不能单独写 `-`：箭头写 `->`，注释写 `--`"),
                    ),
                );
            }
        } else if c == '→' {
            self.advance();
            kind = TokenKind::Arrow;
        } else {
            let n = self.symbol_len_at();
            proof {
                if n > 0 {
                    let k = choose|k: int|
                        0 <= k < self.symbols@.len() && self.symbols@[k]@ =~= self.chars@.subrange(
                            self.i as int,
                            self.i + n,
                        );
                    assert(symbol_at(self.symbols@[k]@, self.chars@, self.i as int));
                    assert(symbol_starts(sym_views(self.symbols@), self.chars@, self.i as int));
                } else if symbol_starts(sym_views(self.symbols@), self.chars@, self.i as int) {
                    let k = choose|k: int|
                        0 <= k < self.symbols@.len() && self.symbols@[k]@.len() > 0 && symbol_at(
                            #[trigger] self.symbols@[k]@,
                            self.chars@,
                            self.i as int,
                        );
                    assert(self.symbols@[k]@.len() <= n);
                }
            }
            if n > 0 {
                let text = string_from_chars(
                    slice_subrange(self.chars.as_slice(), self.i, self.i + n),
                );
                self.advance_n(n);
                kind = TokenKind::Sym(text);
            } else if c == '=' {
                if self.at(1) == Some('>') {
                    self.advance();
                    self.advance();
                    kind = TokenKind::FatArrow;
                } else {
                    self.advance();
                    proof {
                        reveal_strlit("=");
                        assert("="@ =~= seq!['=']);
                    }
                    kind = TokenKind::Sym(String::from_str("="));
                }
            } else if c == ':' {
                if self.at(1) == Some('=') {
                    self.advance();
                    self.advance();
                    kind = TokenKind::ColonEq;
                } else {
                    self.advance();
                    kind = TokenKind::Colon;
                }
            } else if c == '(' {
                self.advance();
                kind = TokenKind::LParen;
            } else if c == ')' {
                self.advance();
                kind = TokenKind::RParen;
            } else if c == '{' {
                self.advance();
                kind = TokenKind::LBrace;
            } else if c == '}' {
                self.advance();
                kind = TokenKind::RBrace;
            } else if c == ',' {
                self.advance();
                kind = TokenKind::Comma;
            } else if c == ';' {
                self.advance();
                kind = TokenKind::Semicolon;
            } else if c == '|' {
                self.advance();
                kind = TokenKind::Pipe;
            } else if c == '@' {
                self.advance();
                kind = TokenKind::At;
            } else if c == '+' {
                self.advance();
                kind = TokenKind::Plus;
            } else if c == '⟨' {
                self.advance();
                kind = TokenKind::Langle;
            } else if c == '⟩' {
                self.advance();
                kind = TokenKind::Rangle;
            } else if c == '#' {
                match self.at(1) {
                    Some(d) => {
                        if !is_ident_start(d) {
                            return Err(
                                self.error_here(
                                    String::from_str("`#`"),
                                    "a command such as `#check`",
                                    String::from_str("`#` 后面要紧跟命令名，例如 #check / #reduce / #print"),
                                ),
                            );
                        }
                    },
                    None => {
                        return Err(
                            self.error_here(
                                String::from_str("`#`"),
                                "a command such as `#check`",
                                String::from_str("`#` 后面要紧跟命令名，例如 #check / #reduce / #print"),
                            ),
                        );
                    },
                }
                let mut text: Vec<char> = vec!['#'];
                self.advance();
                text.push(self.chars[self.i]);
                self.advance();
                proof {
                    assert(text@ =~= self.chars@.subrange(old(self).i as int, self.i as int));
                }
                self.take_ident_rest(&mut text);
                proof {
                    assert(text@ =~= self.chars@.subrange(old(self).i as int, self.i as int));
                }
                kind = TokenKind::Ident(string_from_chars(text.as_slice()));
            } else if is_ascii_digit(c) {
                let mut text: Vec<char> = Vec::new();
                while self.i < self.chars.len() && is_ascii_digit(self.chars[self.i])
                    invariant
                        self.inv(),
                        self.i >= old(self).i,
                        self.chars == old(self).chars,
                        self.symbols == old(self).symbols,
                        self.offset >= old(self).offset,
                        digits_end(self.chars@, self.i as int) == digits_end(self.chars@, old(self).i as int),
                        self.i > old(self).i || self.i == old(self).i,
                        text@ == self.chars@.subrange(old(self).i as int, self.i as int),
                    decreases self.chars@.len() - self.i,
                {
                    text.push(self.chars[self.i]);
                    self.advance();
                    proof {
                        assert(text@ =~= self.chars@.subrange(old(self).i as int, self.i as int));
                    }
                }
                kind = TokenKind::Num(string_from_chars(text.as_slice()));
            } else if is_ident_start(c) {
                let mut text: Vec<char> = vec![c];
                self.advance();
                proof {
                    assert(text@ =~= self.chars@.subrange(old(self).i as int, self.i as int));
                }
                self.take_ident_rest(&mut text);
                proof {
                    assert(text@ =~= self.chars@.subrange(old(self).i as int, self.i as int));
                }
                let word = string_from_chars(text.as_slice());
                if str_eq(word.as_str(), "forall") {
                    kind = TokenKind::Forall;
                } else {
                    if str_eq(word.as_str(), "import") {
                        self.import_line = true;
                    }
                    kind = TokenKind::Ident(word);
                }
            } else if is_math_symbol(c) {
                self.advance();
                kind = TokenKind::Sym(char_string(c));
            } else {
                let found = char_string(c);
                let message = concat3("无法识别的字符 `", found.as_str(), "`");
                return Err(self.error_here(found, "a token", message));
            }
        }
        let end = self.pos();
        Ok(Token { kind, span: Span::new(start, end) })
    }
}

/// Lex `src`, treating each string of `symbols` as a notation symbol.
pub fn tokenize_with_symbols(src: &str, symbols: &Vec<String>) -> (r: Result<Vec<Token>>)
    ensures
        r matches Ok(t) ==> lexed(t@),
        r is Ok <==> lex_ok(src@, 0, nonempty_texts(string_views(symbols@))),
        r matches Ok(t) ==> tok_views(t@) == lex_tokens(src@, 0, nonempty_texts(string_views(symbols@))),
{
    let mut syms: Vec<Vec<char>> = Vec::new();
    let mut k: usize = 0;
    while k < symbols.len()
        invariant
            k <= symbols@.len(),
            sym_views(syms@) == nonempty_texts(string_views(symbols@.take(k as int))),
        decreases symbols.len() - k,
    {
        proof {
            assert(string_views(symbols@.take(k as int + 1)).drop_last() =~= string_views(symbols@.take(k as int)));
            assert(string_views(symbols@.take(k as int + 1)).last() == symbols@[k as int]@);
        }
        let v = chars_of(symbols[k].as_str());
        if v.len() > 0 {
            let ghost before = syms@;
            syms.push(v);
            proof {
                assert(sym_views(syms@) =~= sym_views(before).push(v@));
            }
        }
        k = k + 1;
    }
    proof {
        assert(symbols@.take(symbols@.len() as int) =~= symbols@);
    }
    let ghost sv = sym_views(syms@);
    let chars = chars_of(src);
    proof {
        assert(chars@.len() == chars.len());
    }
    let mut lx = Lexer {
        chars,
        i: 0,
        offset: 0,
        line: 1,
        column: 1,
        symbols: syms,
        import_line: false,
    };
    let mut tokens: Vec<Token> = Vec::new();
    loop
        invariant
            lx.inv(),
            ordered_before(tokens@, lx.offset),
            lx.chars@ == src@,
            sym_views(lx.symbols@) == sv,
            sv == nonempty_texts(string_views(symbols@)),
            lex_ok(src@, lx.i as int, sv) == lex_ok(src@, 0, sv),
            tok_views(tokens@) + lex_tokens(src@, lx.i as int, sv) == lex_tokens(src@, 0, sv),
        decreases lx.chars@.len() - lx.i,
    {
        let ghost before = lx.offset;
        let ghost i0 = lx.i as int;
        lx.skip_trivia()?;
        if lx.i >= lx.chars.len() {
            let p = lx.pos();
            let eof = Token { kind: TokenKind::Eof, span: Span::new(p, p) };
            let ghost tv = tok_views(tokens@);
            tokens.push(eof);
            proof {
                assert(tok_views(tokens@) =~= tv.push(tok_view(eof)));
                assert(tok_views(tokens@) =~= tv + lex_tokens(src@, i0, sv));
            }
            assert forall|i: int, j: int|
                0 <= i < j < tokens@.len() implies (#[trigger] tokens@[i]).span.end.offset <= (
                #[trigger] tokens@[j]).span.start.offset by {
                if j == tokens@.len() - 1 {
                } else {
                    assert(tokens@[i] == old_tokens_index(tokens@, i));
                }
            };
            return Ok(tokens);
        }
        let ghost tv = tok_views(tokens@);
        let ghost j = lx.i as int;
        let t = lx.next_token()?;
        proof {
            assert(tok_view(t) == (
                token_kind_at(src@, j, sv),
                spec_utf8_len_seq(src@.take(j)) as int,
                spec_utf8_len_seq(src@.take(lx.i as int)) as int,
            ));
        }
        tokens.push(t);
        proof {
            assert(tok_views(tokens@) =~= tv.push(tok_view(t)));
            assert(lex_tokens(src@, i0, sv) == seq![tok_view(t)] + lex_tokens(src@, lx.i as int, sv));
            assert(tv.push(tok_view(t)) + lex_tokens(src@, lx.i as int, sv) =~= tv + (seq![tok_view(t)] + lex_tokens(
                src@,
                lx.i as int,
                sv,
            )));
        }
    }
}

spec fn old_tokens_index(t: Seq<Token>, i: int) -> Token {
    t[i]
}

/// The first newline at or after `i` (the length where there is none).
pub open spec fn next_newline(v: Seq<char>, i: int) -> int
    decreases v.len() - i,
{
    if i < 0 || i >= v.len() || v[i] == '\n' {
        i
    } else {
        next_newline(v, i + 1)
    }
}

/// The first index in `p..e` that is not white space (else `e`).
pub open spec fn skip_ws(v: Seq<char>, p: int, e: int) -> int
    decreases e - p,
{
    if p < 0 || p >= e || p >= v.len() || !crate::text::spec_is_whitespace(v[p]) {
        p
    } else {
        skip_ws(v, p + 1, e)
    }
}

/// A character of a plain ASCII word.
pub open spec fn word_char(c: char) -> bool {
    ('a' <= c && c <= 'z') || ('A' <= c && c <= 'Z') || ('0' <= c && c <= '9') || c == '_' || c
        == '\'' || c == '!' || c == '?' || c == '.'
}

/// The first index in `p..e` that is not a word character (else `e`).
pub open spec fn skip_word(v: Seq<char>, p: int, e: int) -> int
    decreases e - p,
{
    if p < 0 || p >= e || p >= v.len() || !word_char(v[p]) {
        p
    } else {
        skip_word(v, p + 1, e)
    }
}

/// The first `"` in `q..e` (else `e`).
pub open spec fn next_quote(v: Seq<char>, q: int, e: int) -> int
    decreases e - q,
{
    if q < 0 || q >= e || q >= v.len() || v[q] == '"' {
        q
    } else {
        next_quote(v, q + 1, e)
    }
}

/// `b` moved back over the white space that ends `a..b`.
pub open spec fn trim_back(v: Seq<char>, a: int, b: int) -> int
    decreases b - a,
{
    if b <= a || b > v.len() || !crate::text::spec_is_whitespace(v[b - 1]) {
        b
    } else {
        trim_back(v, a, b - 1)
    }
}

/// The symbol that the line `i..e` declares: a notation command word (after
/// an optional `scoped`), then the trimmed text between the first two `"`;
/// none where that text is empty, a plain ASCII word, or holds what the
/// lexer reads first (`∀ -> -- # "`).
pub open spec fn line_symbol(v: Seq<char>, i: int, e: int) -> Option<Seq<char>> {
    let p0 = skip_ws(v, i, e);
    let w0 = skip_word(v, p0, e);
    let p = if v.subrange(p0, w0) == "scoped"@ {
        skip_ws(v, w0, e)
    } else {
        p0
    };
    let w = if v.subrange(p0, w0) == "scoped"@ {
        skip_word(v, p, e)
    } else {
        w0
    };
    let q = next_quote(v, w, e);
    let z = next_quote(v, q + 1, e);
    let a = skip_ws(v, q + 1, z);
    let b = trim_back(v, a, z);
    let sym = v.subrange(a, b);
    if spec_notation_command(v.subrange(p, w)) && q < e && z < e && a < b && !spec_ascii_word(sym)
        && !spec_reserved_in_symbol(sym) {
        Some(sym)
    } else {
        None
    }
}

/// `out` with `s` added at the end unless it is there already.
pub open spec fn add_new(out: Seq<Seq<char>>, s: Seq<char>) -> Seq<Seq<char>> {
    if out.contains(s) {
        out
    } else {
        out.push(s)
    }
}

/// The symbols of the lines from index `i` on, added to `out` in order.
pub open spec fn scan_lines(v: Seq<char>, i: int, out: Seq<Seq<char>>) -> Seq<Seq<char>>
    decreases v.len() - i,
{
    if i < 0 || i >= v.len() {
        out
    } else {
        let e = next_newline(v, i);
        let next = match line_symbol(v, i, e) {
            Some(sym) => add_new(out, sym),
            None => out,
        };
        scan_lines(v, if i <= e < v.len() {
            e + 1
        } else {
            v.len() as int
        }, next)
    }
}

/// The strings as plain character sequences.
pub open spec fn string_views(v: Seq<String>) -> Seq<Seq<char>> {
    v.map_values(|s: String| s@)
}

/// Scan `src` line by line for notation commands (`infix`, `prefix`,
/// `notation`, …, optionally after `scoped`) and collect the trimmed symbol
/// of each, in order and without repeats. Symbols that the lexer could never
/// produce (plain ASCII words, text with `∀ -> -- # "`) are left out.
pub fn scan_notation_symbols(src: &str) -> (r: Vec<String>)
    ensures
        string_views(r@) == scan_lines(src@, 0, Seq::empty()),
{
    let v = chars_of(src);
    let mut out: Vec<String> = Vec::new();
    let mut i: usize = 0;
    proof {
        assert(string_views(out@) =~= Seq::<Seq<char>>::empty());
    }
    while i < v.len()
        invariant
            i <= v@.len(),
            v@ == src@,
            scan_lines(v@, i as int, string_views(out@)) == scan_lines(v@, 0, Seq::empty()),
        decreases v.len() - i,
    {
        // One line: [i, e).
        let mut e: usize = i;
        while e < v.len() && v[e] != '\n'
            invariant
                i <= e <= v@.len(),
                next_newline(v@, e as int) == next_newline(v@, i as int),
            decreases v.len() - e,
        {
            e = e + 1;
        }
        let mut p: usize = i;
        while p < e && is_whitespace(v[p])
            invariant
                i <= p <= e,
                e <= v@.len(),
                skip_ws(v@, p as int, e as int) == skip_ws(v@, i as int, e as int),
            decreases e - p,
        {
            p = p + 1;
        }
        let ghost p0 = p;
        let mut w: usize = p;
        while w < e && is_ascii_word_char(v[w])
            invariant
                p <= w <= e,
                e <= v@.len(),
                skip_word(v@, w as int, e as int) == skip_word(v@, p as int, e as int),
            decreases e - w,
        {
            w = w + 1;
        }
        let ghost w0 = w;
        let mut word = string_from_chars(slice_subrange(v.as_slice(), p, w));
        if str_eq(word.as_str(), "scoped") {
            p = w;
            while p < e && is_whitespace(v[p])
                invariant
                    w <= p <= e,
                    e <= v@.len(),
                    skip_ws(v@, p as int, e as int) == skip_ws(v@, w as int, e as int),
                decreases e - p,
            {
                p = p + 1;
            }
            w = p;
            while w < e && is_ascii_word_char(v[w])
                invariant
                    p <= w <= e,
                    e <= v@.len(),
                    skip_word(v@, w as int, e as int) == skip_word(v@, p as int, e as int),
                decreases e - w,
            {
                w = w + 1;
            }
            word = string_from_chars(slice_subrange(v.as_slice(), p, w));
        }
        let ghost before = out@;
        let ghost ls = line_symbol(v@, i as int, e as int);
        proof {
            assert(word@ == v@.subrange(p as int, w as int));
        }
        if is_notation_command(word.as_str()) {
            let mut q: usize = w;
            while q < e && v[q] != '"'
                invariant
                    w <= q <= e,
                    e <= v@.len(),
                    next_quote(v@, q as int, e as int) == next_quote(v@, w as int, e as int),
                decreases e - q,
            {
                q = q + 1;
            }
            if q < e {
                let mut z: usize = q + 1;
                while z < e && v[z] != '"'
                    invariant
                        q < z <= e,
                        e <= v@.len(),
                        next_quote(v@, z as int, e as int) == next_quote(v@, q + 1, e as int),
                    decreases e - z,
                {
                    z = z + 1;
                }
                if z < e {
                    let mut a: usize = q + 1;
                    let mut b: usize = z;
                    while a < b && is_whitespace(v[a])
                        invariant
                            q + 1 <= a <= b <= z,
                            b == z,
                            z < e <= v@.len(),
                            skip_ws(v@, a as int, z as int) == skip_ws(v@, q + 1, z as int),
                        decreases b - a,
                    {
                        a = a + 1;
                    }
                    while a < b && is_whitespace(v[(b - 1) as usize])
                        invariant
                            q + 1 <= a <= b <= z,
                            z < e <= v@.len(),
                            trim_back(v@, a as int, b as int) == trim_back(v@, a as int, z as int),
                        decreases b - a,
                    {
                        b = b - 1;
                    }
                    if a < b {
                        let sym = string_from_chars(slice_subrange(v.as_slice(), a, b));
                        let ghost sv = sym@;
                        proof {
                            if string_views(before).contains(sym@) {
                                let k = choose|k: int| 0 <= k < string_views(before).len() && string_views(before)[k] == sym@;
                                assert(before[k]@ == sym@);
                            }
                            if exists|k: int| 0 <= k < before.len() && before[k]@ == sym@ {
                                let k = choose|k: int| 0 <= k < before.len() && before[k]@ == sym@;
                                assert(string_views(before)[k] == sym@);
                            }
                        }
                        if !is_ascii_word_symbol(sym.as_str()) && lexer_reserved_symbol_char(
                            sym.as_str(),
                        ).is_none() && !contains_string(&out, sym.as_str()) {
                            out.push(sym);
                            proof {
                                assert(string_views(out@) =~= string_views(before).push(sv));
                            }
                        }
                        proof {
                            assert(ls == (if !spec_ascii_word(sv) && !spec_reserved_in_symbol(sv) {
                                Some(sv)
                            } else {
                                None
                            }));
                            assert(string_views(out@) == match ls {
                                Some(x) => add_new(string_views(before), x),
                                None => string_views(before),
                            });
                        }
                    } else {
                        proof {
                            assert(ls is None);
                        }
                    }
                } else {
                    proof {
                        assert(ls is None);
                    }
                }
            } else {
                proof {
                    assert(ls is None);
                }
            }
        } else {
            proof {
                assert(ls is None);
            }
        }
        proof {
            assert(string_views(out@) == match ls {
                Some(x) => add_new(string_views(before), x),
                None => string_views(before),
            });
        }
        i = if e < v.len() {
            e + 1
        } else {
            e
        };
    }
    out
}

/// Whether `v` holds a string equal to `s`.
pub fn contains_string(v: &Vec<String>, s: &str) -> (r: bool)
    ensures
        r == (exists|k: int| 0 <= k < v@.len() && v@[k]@ == s@),
{
    let mut k: usize = 0;
    while k < v.len()
        invariant
            k <= v@.len(),
            forall|m: int| 0 <= m < k ==> v@[m]@ != s@,
        decreases v.len() - k,
    {
        if str_eq(v[k].as_str(), s) {
            return true;
        }
        k = k + 1;
    }
    false
}

} // verus!
