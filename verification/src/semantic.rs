//! Semantic colouring: lexical and syntactic facts turned into tokens that
//! carry a [`SemanticKind`].
//!
//! The classification degrades gracefully on a half-written file: a lexing
//! error keeps the tokens before it (without name resolution), a parse error
//! falls back to purely lexical classification.
use crate::ast::{
    effective_commands, Binder, BinderKind, CasesArm, Command, Expr, FolFile, HaveValue, MatchArm,
    Pattern, Tactic,
};
use crate::parser::{file_symbols, parse, tokenize, trim_trailing_dots};
use crate::span::Span;
use crate::text::{chars_of, concat3, contains_char, str_eq, string_from_chars, utf8_len};
use crate::token::{lex_ok, lex_tokens, lexed, tok_view, tok_views, LexKind, Token, TokenKind};
use crate::text::spec_utf8_len_seq;
use vstd::prelude::*;

verus! {

#[derive(Debug, Clone, Copy, PartialEq, Eq, Structural)]
pub enum SemanticKind {
    Keyword,
    Sort,
    Number,
    Hole,
    DefName,
    TheoremName,
    AxiomName,
    InductiveName,
    CtorName,
    Binder,
    DefUse,
    TheoremUse,
    AxiomUse,
    InductiveUse,
    CtorUse,
    UnknownIdent,
}

#[derive(Debug, Clone, Copy, PartialEq, Eq)]
pub struct SemanticSpan {
    pub span: Span,
    pub kind: SemanticKind,
}

/// One renderable fragment of a text: its literal source plus the semantic
/// kind (`None` = whitespace/punctuation, drawn plain).
#[derive(Debug, Clone, PartialEq, Eq)]
pub struct Run {
    pub text: String,
    pub kind: Option<SemanticKind>,
}

/// The language keywords, in table order.
pub open spec fn keyword_list() -> Seq<&'static str> {
    seq![
        "import", "def", "abbrev", "theorem", "example", "axiom", "inductive", "ctor", "rec",
        "iota", "end", "fun", "let", "match", "with", "by", "infix", "infixl", "infixr", "prefix",
        "postfix", "notation", "binder_notation", "scoped", "intro", "exact", "apply",
        "assumption", "rfl", "constructor", "left", "right", "use", "exfalso", "cases", "have",
        "#check", "#reduce", "#print",
    ]
}

/// Every keyword of the language is coloured as a keyword wherever no
/// declaration site sits at its offset: the command words (`import`,
/// `def`, `abbrev`, `theorem`, `example`, `axiom`, `inductive`, …), the
/// expression words, the notation commands, the tactic words and the `#`
/// commands.
pub proof fn lemma_keywords_are_coloured_as_keywords(w: Seq<char>, offset: usize, v: NamesView)
    requires
        w == "import"@ || w == "def"@ || w == "abbrev"@ || w == "theorem"@ || w == "example"@ || w == "axiom"@ || w == "inductive"@ || w == "ctor"@ || w == "rec"@ || w == "iota"@ || w == "end"@ || w == "fun"@ || w == "let"@ || w == "match"@ || w == "with"@ || w == "by"@ || w == "infix"@ || w == "infixl"@ || w == "infixr"@ || w == "prefix"@ || w == "postfix"@ || w == "notation"@ || w == "binder_notation"@ || w == "scoped"@ || w == "intro"@ || w == "exact"@ || w == "apply"@ || w == "assumption"@ || w == "rfl"@ || w == "constructor"@ || w == "left"@ || w == "right"@ || w == "use"@ || w == "exfalso"@ || w == "cases"@ || w == "have"@ || w == "#check"@ || w == "#reduce"@ || w == "#print"@,
        last_entry(v.5, offset) is None,
    ensures
        ident_kind(w, offset, v) == SemanticKind::Keyword,
{
    reveal_strlit("import");
    reveal_strlit("def");
    reveal_strlit("abbrev");
    reveal_strlit("theorem");
    reveal_strlit("example");
    reveal_strlit("axiom");
    reveal_strlit("inductive");
    reveal_strlit("ctor");
    reveal_strlit("rec");
    reveal_strlit("iota");
    reveal_strlit("end");
    reveal_strlit("fun");
    reveal_strlit("let");
    reveal_strlit("match");
    reveal_strlit("with");
    reveal_strlit("by");
    reveal_strlit("infix");
    reveal_strlit("infixl");
    reveal_strlit("infixr");
    reveal_strlit("prefix");
    reveal_strlit("postfix");
    reveal_strlit("notation");
    reveal_strlit("binder_notation");
    reveal_strlit("scoped");
    reveal_strlit("intro");
    reveal_strlit("exact");
    reveal_strlit("apply");
    reveal_strlit("assumption");
    reveal_strlit("rfl");
    reveal_strlit("constructor");
    reveal_strlit("left");
    reveal_strlit("right");
    reveal_strlit("use");
    reveal_strlit("exfalso");
    reveal_strlit("cases");
    reveal_strlit("have");
    reveal_strlit("#check");
    reveal_strlit("#reduce");
    reveal_strlit("#print");
    reveal_strlit("sorry");
    if w == "import"@ {
        assert(keyword_list()[0]@ == w);
        assert(w.last() != '.');
        assert(w.len() != "sorry"@.len() || w[0] != "sorry"@[0]);
    }
    if w == "def"@ {
        assert(keyword_list()[1]@ == w);
        assert(w.last() != '.');
        assert(w.len() != "sorry"@.len() || w[0] != "sorry"@[0]);
    }
    if w == "abbrev"@ {
        assert(keyword_list()[2]@ == w);
        assert(w.last() != '.');
        assert(w.len() != "sorry"@.len() || w[0] != "sorry"@[0]);
    }
    if w == "theorem"@ {
        assert(keyword_list()[3]@ == w);
        assert(w.last() != '.');
        assert(w.len() != "sorry"@.len() || w[0] != "sorry"@[0]);
    }
    if w == "example"@ {
        assert(keyword_list()[4]@ == w);
        assert(w.last() != '.');
        assert(w.len() != "sorry"@.len() || w[0] != "sorry"@[0]);
    }
    if w == "axiom"@ {
        assert(keyword_list()[5]@ == w);
        assert(w.last() != '.');
        assert(w.len() != "sorry"@.len() || w[0] != "sorry"@[0]);
    }
    if w == "inductive"@ {
        assert(keyword_list()[6]@ == w);
        assert(w.last() != '.');
        assert(w.len() != "sorry"@.len() || w[0] != "sorry"@[0]);
    }
    if w == "ctor"@ {
        assert(keyword_list()[7]@ == w);
        assert(w.last() != '.');
        assert(w.len() != "sorry"@.len() || w[0] != "sorry"@[0]);
    }
    if w == "rec"@ {
        assert(keyword_list()[8]@ == w);
        assert(w.last() != '.');
        assert(w.len() != "sorry"@.len() || w[0] != "sorry"@[0]);
    }
    if w == "iota"@ {
        assert(keyword_list()[9]@ == w);
        assert(w.last() != '.');
        assert(w.len() != "sorry"@.len() || w[0] != "sorry"@[0]);
    }
    if w == "end"@ {
        assert(keyword_list()[10]@ == w);
        assert(w.last() != '.');
        assert(w.len() != "sorry"@.len() || w[0] != "sorry"@[0]);
    }
    if w == "fun"@ {
        assert(keyword_list()[11]@ == w);
        assert(w.last() != '.');
        assert(w.len() != "sorry"@.len() || w[0] != "sorry"@[0]);
    }
    if w == "let"@ {
        assert(keyword_list()[12]@ == w);
        assert(w.last() != '.');
        assert(w.len() != "sorry"@.len() || w[0] != "sorry"@[0]);
    }
    if w == "match"@ {
        assert(keyword_list()[13]@ == w);
        assert(w.last() != '.');
        assert(w.len() != "sorry"@.len() || w[0] != "sorry"@[0]);
    }
    if w == "with"@ {
        assert(keyword_list()[14]@ == w);
        assert(w.last() != '.');
        assert(w.len() != "sorry"@.len() || w[0] != "sorry"@[0]);
    }
    if w == "by"@ {
        assert(keyword_list()[15]@ == w);
        assert(w.last() != '.');
        assert(w.len() != "sorry"@.len() || w[0] != "sorry"@[0]);
    }
    if w == "infix"@ {
        assert(keyword_list()[16]@ == w);
        assert(w.last() != '.');
        assert(w.len() != "sorry"@.len() || w[0] != "sorry"@[0]);
    }
    if w == "infixl"@ {
        assert(keyword_list()[17]@ == w);
        assert(w.last() != '.');
        assert(w.len() != "sorry"@.len() || w[0] != "sorry"@[0]);
    }
    if w == "infixr"@ {
        assert(keyword_list()[18]@ == w);
        assert(w.last() != '.');
        assert(w.len() != "sorry"@.len() || w[0] != "sorry"@[0]);
    }
    if w == "prefix"@ {
        assert(keyword_list()[19]@ == w);
        assert(w.last() != '.');
        assert(w.len() != "sorry"@.len() || w[0] != "sorry"@[0]);
    }
    if w == "postfix"@ {
        assert(keyword_list()[20]@ == w);
        assert(w.last() != '.');
        assert(w.len() != "sorry"@.len() || w[0] != "sorry"@[0]);
    }
    if w == "notation"@ {
        assert(keyword_list()[21]@ == w);
        assert(w.last() != '.');
        assert(w.len() != "sorry"@.len() || w[0] != "sorry"@[0]);
    }
    if w == "binder_notation"@ {
        assert(keyword_list()[22]@ == w);
        assert(w.last() != '.');
        assert(w.len() != "sorry"@.len() || w[0] != "sorry"@[0]);
    }
    if w == "scoped"@ {
        assert(keyword_list()[23]@ == w);
        assert(w.last() != '.');
        assert(w.len() != "sorry"@.len() || w[0] != "sorry"@[0]);
    }
    if w == "intro"@ {
        assert(keyword_list()[24]@ == w);
        assert(w.last() != '.');
        assert(w.len() != "sorry"@.len() || w[0] != "sorry"@[0]);
    }
    if w == "exact"@ {
        assert(keyword_list()[25]@ == w);
        assert(w.last() != '.');
        assert(w.len() != "sorry"@.len() || w[0] != "sorry"@[0]);
    }
    if w == "apply"@ {
        assert(keyword_list()[26]@ == w);
        assert(w.last() != '.');
        assert(w.len() != "sorry"@.len() || w[0] != "sorry"@[0]);
    }
    if w == "assumption"@ {
        assert(keyword_list()[27]@ == w);
        assert(w.last() != '.');
        assert(w.len() != "sorry"@.len() || w[0] != "sorry"@[0]);
    }
    if w == "rfl"@ {
        assert(keyword_list()[28]@ == w);
        assert(w.last() != '.');
        assert(w.len() != "sorry"@.len() || w[0] != "sorry"@[0]);
    }
    if w == "constructor"@ {
        assert(keyword_list()[29]@ == w);
        assert(w.last() != '.');
        assert(w.len() != "sorry"@.len() || w[0] != "sorry"@[0]);
    }
    if w == "left"@ {
        assert(keyword_list()[30]@ == w);
        assert(w.last() != '.');
        assert(w.len() != "sorry"@.len() || w[0] != "sorry"@[0]);
    }
    if w == "right"@ {
        assert(keyword_list()[31]@ == w);
        assert(w.last() != '.');
        assert(w.len() != "sorry"@.len() || w[0] != "sorry"@[0]);
    }
    if w == "use"@ {
        assert(keyword_list()[32]@ == w);
        assert(w.last() != '.');
        assert(w.len() != "sorry"@.len() || w[0] != "sorry"@[0]);
    }
    if w == "exfalso"@ {
        assert(keyword_list()[33]@ == w);
        assert(w.last() != '.');
        assert(w.len() != "sorry"@.len() || w[0] != "sorry"@[0]);
    }
    if w == "cases"@ {
        assert(keyword_list()[34]@ == w);
        assert(w.last() != '.');
        assert(w.len() != "sorry"@.len() || w[0] != "sorry"@[0]);
    }
    if w == "have"@ {
        assert(keyword_list()[35]@ == w);
        assert(w.last() != '.');
        assert(w.len() != "sorry"@.len() || w[0] != "sorry"@[0]);
    }
    if w == "#check"@ {
        assert(keyword_list()[36]@ == w);
        assert(w.last() != '.');
        assert(w.len() != "sorry"@.len() || w[0] != "sorry"@[0]);
    }
    if w == "#reduce"@ {
        assert(keyword_list()[37]@ == w);
        assert(w.last() != '.');
        assert(w.len() != "sorry"@.len() || w[0] != "sorry"@[0]);
    }
    if w == "#print"@ {
        assert(keyword_list()[38]@ == w);
        assert(w.last() != '.');
        assert(w.len() != "sorry"@.len() || w[0] != "sorry"@[0]);
    }
}

/// Only the keywords are coloured as keywords: where no declaration site sits
/// at the offset, the token has no trailing dot and no declaration gives its
/// name the keyword kind, a token coloured as a keyword is one of the
/// language's keyword spellings.
pub proof fn lemma_only_keywords_are_coloured_as_keywords(w: Seq<char>, offset: usize, v: NamesView)
    requires
        last_entry(v.5, offset) is None,
        w.len() == 0 || w.last() != '.',
        last_entry(v.0, w) != Some(SemanticKind::Keyword),
    ensures
        ident_kind(w, offset, v) == SemanticKind::Keyword ==> (w == "import"@ || w == "def"@ || w == "abbrev"@ || w == "theorem"@ || w == "example"@ || w == "axiom"@ || w == "inductive"@ || w == "ctor"@ || w == "rec"@ || w == "iota"@ || w == "end"@ || w == "fun"@ || w == "let"@ || w == "match"@ || w == "with"@ || w == "by"@ || w == "infix"@ || w == "infixl"@ || w == "infixr"@ || w == "prefix"@ || w == "postfix"@ || w == "notation"@ || w == "binder_notation"@ || w == "scoped"@ || w == "intro"@ || w == "exact"@ || w == "apply"@ || w == "assumption"@ || w == "rfl"@ || w == "constructor"@ || w == "left"@ || w == "right"@ || w == "use"@ || w == "exfalso"@ || w == "cases"@ || w == "have"@ || w == "#check"@ || w == "#reduce"@ || w == "#print"@),
{
    if ident_kind(w, offset, v) == SemanticKind::Keyword {
        assert(in_table(keyword_list(), w));
        let i = choose|i: int| 0 <= i < keyword_list().len() && (#[trigger] keyword_list()[i])@ == w;
        reveal_strlit("import");
        reveal_strlit("def");
        reveal_strlit("abbrev");
        reveal_strlit("theorem");
        reveal_strlit("example");
        reveal_strlit("axiom");
        reveal_strlit("inductive");
        reveal_strlit("ctor");
        reveal_strlit("rec");
        reveal_strlit("iota");
        reveal_strlit("end");
        reveal_strlit("fun");
        reveal_strlit("let");
        reveal_strlit("match");
        reveal_strlit("with");
        reveal_strlit("by");
        reveal_strlit("infix");
        reveal_strlit("infixl");
        reveal_strlit("infixr");
        reveal_strlit("prefix");
        reveal_strlit("postfix");
        reveal_strlit("notation");
        reveal_strlit("binder_notation");
        reveal_strlit("scoped");
        reveal_strlit("intro");
        reveal_strlit("exact");
        reveal_strlit("apply");
        reveal_strlit("assumption");
        reveal_strlit("rfl");
        reveal_strlit("constructor");
        reveal_strlit("left");
        reveal_strlit("right");
        reveal_strlit("use");
        reveal_strlit("exfalso");
        reveal_strlit("cases");
        reveal_strlit("have");
        reveal_strlit("#check");
        reveal_strlit("#reduce");
        reveal_strlit("#print");
        if i == 0 {
            assert(w == "import"@);
        }
        if i == 1 {
            assert(w == "def"@);
        }
        if i == 2 {
            assert(w == "abbrev"@);
        }
        if i == 3 {
            assert(w == "theorem"@);
        }
        if i == 4 {
            assert(w == "example"@);
        }
        if i == 5 {
            assert(w == "axiom"@);
        }
        if i == 6 {
            assert(w == "inductive"@);
        }
        if i == 7 {
            assert(w == "ctor"@);
        }
        if i == 8 {
            assert(w == "rec"@);
        }
        if i == 9 {
            assert(w == "iota"@);
        }
        if i == 10 {
            assert(w == "end"@);
        }
        if i == 11 {
            assert(w == "fun"@);
        }
        if i == 12 {
            assert(w == "let"@);
        }
        if i == 13 {
            assert(w == "match"@);
        }
        if i == 14 {
            assert(w == "with"@);
        }
        if i == 15 {
            assert(w == "by"@);
        }
        if i == 16 {
            assert(w == "infix"@);
        }
        if i == 17 {
            assert(w == "infixl"@);
        }
        if i == 18 {
            assert(w == "infixr"@);
        }
        if i == 19 {
            assert(w == "prefix"@);
        }
        if i == 20 {
            assert(w == "postfix"@);
        }
        if i == 21 {
            assert(w == "notation"@);
        }
        if i == 22 {
            assert(w == "binder_notation"@);
        }
        if i == 23 {
            assert(w == "scoped"@);
        }
        if i == 24 {
            assert(w == "intro"@);
        }
        if i == 25 {
            assert(w == "exact"@);
        }
        if i == 26 {
            assert(w == "apply"@);
        }
        if i == 27 {
            assert(w == "assumption"@);
        }
        if i == 28 {
            assert(w == "rfl"@);
        }
        if i == 29 {
            assert(w == "constructor"@);
        }
        if i == 30 {
            assert(w == "left"@);
        }
        if i == 31 {
            assert(w == "right"@);
        }
        if i == 32 {
            assert(w == "use"@);
        }
        if i == 33 {
            assert(w == "exfalso"@);
        }
        if i == 34 {
            assert(w == "cases"@);
        }
        if i == 35 {
            assert(w == "have"@);
        }
        if i == 36 {
            assert(w == "#check"@);
        }
        if i == 37 {
            assert(w == "#reduce"@);
        }
        if i == 38 {
            assert(w == "#print"@);
        }
    }
}

/// The other fixed words: a declaration site at the token's offset wins;
/// otherwise `sorry` is a hole and `Prop`, `Type` and `Sort` are sorts.
pub proof fn lemma_fixed_words(w: Seq<char>, offset: usize, v: NamesView)
    ensures
        last_entry(v.5, offset) matches Some(k) ==> ident_kind(w, offset, v) == k,
        last_entry(v.5, offset) is None && w == "sorry"@ ==> ident_kind(w, offset, v) == SemanticKind::Hole,
        last_entry(v.5, offset) is None && (w == "Prop"@ || w == "Type"@ || w == "Sort"@) ==> ident_kind(
            w,
            offset,
            v,
        ) == SemanticKind::Sort,
{
    reveal_strlit("sorry");
    reveal_strlit("Prop");
    reveal_strlit("Type");
    reveal_strlit("Sort");
    if last_entry(v.5, offset) is None && (w == "Prop"@ || w == "Type"@ || w == "Sort"@) {
        assert(w.len() != "sorry"@.len());
        assert(w.last() != '.');
        if w == "Prop"@ {
            assert(sort_list()[0]@ == w);
        } else if w == "Type"@ {
            assert(sort_list()[1]@ == w);
        } else {
            assert(sort_list()[2]@ == w);
        }
        assert forall|i: int| 0 <= i < keyword_list().len() implies (#[trigger] keyword_list()[i])@ != w by {
            reveal_strlit("import");
            reveal_strlit("def");
            reveal_strlit("abbrev");
            reveal_strlit("theorem");
            reveal_strlit("example");
            reveal_strlit("axiom");
            reveal_strlit("inductive");
            reveal_strlit("ctor");
            reveal_strlit("rec");
            reveal_strlit("iota");
            reveal_strlit("end");
            reveal_strlit("fun");
            reveal_strlit("let");
            reveal_strlit("match");
            reveal_strlit("with");
            reveal_strlit("by");
            reveal_strlit("infix");
            reveal_strlit("infixl");
            reveal_strlit("infixr");
            reveal_strlit("prefix");
            reveal_strlit("postfix");
            reveal_strlit("notation");
            reveal_strlit("binder_notation");
            reveal_strlit("scoped");
            reveal_strlit("intro");
            reveal_strlit("exact");
            reveal_strlit("apply");
            reveal_strlit("assumption");
            reveal_strlit("rfl");
            reveal_strlit("constructor");
            reveal_strlit("left");
            reveal_strlit("right");
            reveal_strlit("use");
            reveal_strlit("exfalso");
            reveal_strlit("cases");
            reveal_strlit("have");
            reveal_strlit("#check");
            reveal_strlit("#reduce");
            reveal_strlit("#print");
            assert(keyword_list()[i]@.len() != w.len() || keyword_list()[i]@[0] != w[0] || keyword_list()[i]@[1] != w[1]);
        };
    }
    if last_entry(v.5, offset) is None && w == "sorry"@ {
    }
}

/// The sort spellings.
pub open spec fn sort_list() -> Seq<&'static str> {
    seq!["Prop", "Type", "Sort"]
}

/// Whether `s` is one of the strings of `table`.
pub open spec fn in_table(table: Seq<&'static str>, s: Seq<char>) -> bool {
    exists|i: int| 0 <= i < table.len() && (#[trigger] table[i])@ == s
}

/// The language keywords (single source for semantic tokens and completions).
pub fn keywords() -> (r: Vec<&'static str>)
    ensures
        r@ == keyword_list(),
{
    vec![
        "import",
        "def",
        "abbrev",
        "theorem",
        "example",
        "axiom",
        "inductive",
        "ctor",
        "rec",
        "iota",
        "end",
        "fun",
        "let",
        "match",
        "with",
        "by",
        "infix",
        "infixl",
        "infixr",
        "prefix",
        "postfix",
        "notation",
        "binder_notation",
        "scoped",
        "intro",
        "exact",
        "apply",
        "assumption",
        "rfl",
        "constructor",
        "left",
        "right",
        "use",
        "exfalso",
        "cases",
        "have",
        "#check",
        "#reduce",
        "#print",
    ]
}

/// The sort spellings (`Prop`/`Type`/`Sort`).
pub fn sorts() -> (r: Vec<&'static str>)
    ensures
        r@ == sort_list(),
{
    vec!["Prop", "Type", "Sort"]
}

/// Whether `text` is one of the strings of `table`.
fn table_contains(table: &Vec<&'static str>, text: &str) -> (r: bool)
    ensures
        r == in_table(table@, text@),
{
    let mut i: usize = 0;
    while i < table.len()
        invariant
            i <= table@.len(),
            forall|j: int| 0 <= j < i ==> (#[trigger] table@[j])@ != text@,
        decreases table.len() - i,
    {
        if crate::text::str_eq(table[i], text) {
            return true;
        }
        i = i + 1;
    }
    false
}

impl SemanticKind {
    /// Every kind, in declaration order.
    pub open spec fn all_kinds() -> Seq<SemanticKind> {
        seq![
            SemanticKind::Keyword,
            SemanticKind::Sort,
            SemanticKind::Number,
            SemanticKind::Hole,
            SemanticKind::DefName,
            SemanticKind::TheoremName,
            SemanticKind::AxiomName,
            SemanticKind::InductiveName,
            SemanticKind::CtorName,
            SemanticKind::Binder,
            SemanticKind::DefUse,
            SemanticKind::TheoremUse,
            SemanticKind::AxiomUse,
            SemanticKind::InductiveUse,
            SemanticKind::CtorUse,
            SemanticKind::UnknownIdent,
        ]
    }

    /// Every kind, in declaration order — the exhaustive source for tests
    /// and client look-up tables.
    pub fn all() -> (r: Vec<SemanticKind>)
        ensures
            r@ == Self::all_kinds(),
    {
        vec![
            SemanticKind::Keyword,
            SemanticKind::Sort,
            SemanticKind::Number,
            SemanticKind::Hole,
            SemanticKind::DefName,
            SemanticKind::TheoremName,
            SemanticKind::AxiomName,
            SemanticKind::InductiveName,
            SemanticKind::CtorName,
            SemanticKind::Binder,
            SemanticKind::DefUse,
            SemanticKind::TheoremUse,
            SemanticKind::AxiomUse,
            SemanticKind::InductiveUse,
            SemanticKind::CtorUse,
            SemanticKind::UnknownIdent,
        ]
    }

    pub open spec fn spec_tm_scope(self) -> &'static str {
        match self {
            SemanticKind::Keyword => "keyword.other.sokonanoda",
            SemanticKind::Sort | SemanticKind::InductiveName | SemanticKind::InductiveUse => {
                "storage.type.sokonanoda"
            },
            SemanticKind::Number => "constant.numeric.sokonanoda",
            SemanticKind::Hole => "markup.inserted.sokonanoda",
            SemanticKind::DefName
            | SemanticKind::DefUse
            | SemanticKind::TheoremName
            | SemanticKind::TheoremUse => "entity.name.function.sokonanoda",
            SemanticKind::AxiomName
            | SemanticKind::AxiomUse
            | SemanticKind::CtorName
            | SemanticKind::CtorUse => "entity.name.type.sokonanoda",
            SemanticKind::Binder => "variable.parameter.sokonanoda",
            SemanticKind::UnknownIdent => "variable.other.sokonanoda",
        }
    }

    /// Canonical TextMate scope for this kind.
    pub fn tm_scope(self) -> (r: &'static str)
        ensures
            r == self.spec_tm_scope(),
    {
        match self {
            SemanticKind::Keyword => "keyword.other.sokonanoda",
            SemanticKind::Sort | SemanticKind::InductiveName | SemanticKind::InductiveUse => {
                "storage.type.sokonanoda"
            },
            SemanticKind::Number => "constant.numeric.sokonanoda",
            SemanticKind::Hole => "markup.inserted.sokonanoda",
            SemanticKind::DefName
            | SemanticKind::DefUse
            | SemanticKind::TheoremName
            | SemanticKind::TheoremUse => "entity.name.function.sokonanoda",
            SemanticKind::AxiomName
            | SemanticKind::AxiomUse
            | SemanticKind::CtorName
            | SemanticKind::CtorUse => "entity.name.type.sokonanoda",
            SemanticKind::Binder => "variable.parameter.sokonanoda",
            SemanticKind::UnknownIdent => "variable.other.sokonanoda",
        }
    }

    pub open spec fn spec_as_str(self) -> &'static str {
        match self {
            SemanticKind::Keyword => "keyword",
            SemanticKind::Sort => "sort",
            SemanticKind::Number => "number",
            SemanticKind::Hole => "hole",
            SemanticKind::DefName => "def_name",
            SemanticKind::TheoremName => "theorem_name",
            SemanticKind::AxiomName => "axiom_name",
            SemanticKind::InductiveName => "inductive_name",
            SemanticKind::CtorName => "ctor_name",
            SemanticKind::Binder => "binder",
            SemanticKind::DefUse => "def_use",
            SemanticKind::TheoremUse => "theorem_use",
            SemanticKind::AxiomUse => "axiom_use",
            SemanticKind::InductiveUse => "inductive_use",
            SemanticKind::CtorUse => "ctor_use",
            SemanticKind::UnknownIdent => "unknown_ident",
        }
    }

    /// Stable lowercase wire name.
    pub fn as_str(self) -> (r: &'static str)
        ensures
            r == self.spec_as_str(),
    {
        match self {
            SemanticKind::Keyword => "keyword",
            SemanticKind::Sort => "sort",
            SemanticKind::Number => "number",
            SemanticKind::Hole => "hole",
            SemanticKind::DefName => "def_name",
            SemanticKind::TheoremName => "theorem_name",
            SemanticKind::AxiomName => "axiom_name",
            SemanticKind::InductiveName => "inductive_name",
            SemanticKind::CtorName => "ctor_name",
            SemanticKind::Binder => "binder",
            SemanticKind::DefUse => "def_use",
            SemanticKind::TheoremUse => "theorem_use",
            SemanticKind::AxiomUse => "axiom_use",
            SemanticKind::InductiveUse => "inductive_use",
            SemanticKind::CtorUse => "ctor_use",
            SemanticKind::UnknownIdent => "unknown_ident",
        }
    }
}

// ---------------------------------------------------------------------------
// Text of runs.
// ---------------------------------------------------------------------------

/// The concatenated text of `runs`.
pub open spec fn runs_text(runs: Seq<Run>) -> Seq<char>
    decreases runs.len(),
{
    if runs.len() == 0 {
        Seq::empty()
    } else {
        runs_text(runs.drop_last()) + runs.last().text@
    }
}

proof fn lemma_runs_text_push(runs: Seq<Run>, r: Run)
    ensures
        runs_text(runs.push(r)) == runs_text(runs) + r.text@,
{
    assert(runs.push(r).drop_last() == runs);
}

proof fn lemma_runs_text_concat(a: Seq<Run>, b: Seq<Run>)
    ensures
        runs_text(a + b) == runs_text(a) + runs_text(b),
    decreases b.len(),
{
    if b.len() == 0 {
        assert(a + b == a);
        assert(runs_text(b) == Seq::<char>::empty());
        assert(runs_text(a) + Seq::<char>::empty() == runs_text(a));
    } else {
        lemma_runs_text_concat(a, b.drop_last());
        assert((a + b).drop_last() == a + b.drop_last());
        assert((a + b).last() == b.last());
        assert(runs_text(a) + runs_text(b.drop_last()) + b.last().text@ == runs_text(a) + (
        runs_text(b.drop_last()) + b.last().text@));
    }
}

/// Plain-text projection of runs: their texts, concatenated.
pub fn runs_to_text(runs: &[Run]) -> (r: String)
    ensures
        r@ == runs_text(runs@),
{
    let mut out = String::new();
    let mut i: usize = 0;
    while i < runs.len()
        invariant
            i <= runs@.len(),
            out@ == runs_text(runs@.take(i as int)),
        decreases runs.len() - i,
    {
        proof {
            assert(runs@.take(i as int + 1) == runs@.take(i as int).push(runs@[i as int]));
            lemma_runs_text_push(runs@.take(i as int), runs@[i as int]);
        }
        out.append(runs[i].text.as_str());
        i = i + 1;
    }
    proof {
        assert(runs@.take(runs@.len() as int) == runs@);
    }
    out
}

/// The goal block: one `name : ty` line per hypothesis, then `⊢ goal`.
pub open spec fn hypotheses_text(binders: Seq<(String, String)>) -> Seq<char>
    decreases binders.len(),
{
    if binders.len() == 0 {
        Seq::empty()
    } else {
        hypotheses_text(binders.drop_last()) + binders.last().0@ + " : "@ + binders.last().1@
            + "\n"@
    }
}

pub open spec fn spec_goal_text(binders: Seq<(String, String)>, goal: Seq<char>) -> Seq<char> {
    hypotheses_text(binders) + "⊢ "@ + goal
}

fn hypotheses_string(binders: &[(String, String)]) -> (r: String)
    ensures
        r@ == hypotheses_text(binders@),
{
    let mut out = String::new();
    let mut i: usize = 0;
    while i < binders.len()
        invariant
            i <= binders@.len(),
            out@ == hypotheses_text(binders@.take(i as int)),
        decreases binders.len() - i,
    {
        proof {
            assert(binders@.take(i as int + 1).drop_last() == binders@.take(i as int));
            assert(binders@.take(i as int + 1).last() == binders@[i as int]);
        }
        out.append(binders[i].0.as_str());
        out.append(" : ");
        out.append(binders[i].1.as_str());
        out.append("\n");
        i = i + 1;
    }
    proof {
        assert(binders@.take(binders@.len() as int) == binders@);
    }
    out
}

/// Canonical goal-state text: `name : ty` per hypothesis (in order), then
/// `⊢ goal`.
pub fn goal_text(binders: &[(String, String)], goal: &str) -> (r: String)
    ensures
        r@ == spec_goal_text(binders@, goal@),
{
    let mut out = hypotheses_string(binders);
    out.append("⊢ ");
    out.append(goal);
    out
}


// ---------------------------------------------------------------------------
// Name tables.
// ---------------------------------------------------------------------------

/// The kind recorded last for `key` in `table` (a later entry overrides an
/// earlier one).
pub open spec fn last_entry<K>(table: Seq<(K, SemanticKind)>, key: K) -> Option<SemanticKind>
    decreases table.len(),
{
    if table.len() == 0 {
        None
    } else if table.last().0 == key {
        Some(table.last().1)
    } else {
        last_entry(table.drop_last(), key)
    }
}

/// The declaration table, keyed by the name's characters.
pub open spec fn name_table(table: Seq<(String, SemanticKind)>) -> Seq<(Seq<char>, SemanticKind)> {
    table.map_values(|e: (String, SemanticKind)| (e.0@, e.1))
}

pub open spec fn has_name(names: Seq<String>, name: Seq<char>) -> bool {
    exists|i: int| 0 <= i < names.len() && (#[trigger] names[i])@ == name
}

/// What the classification knows of a file: declaration names (with their
/// use kind), constructors, binders (flat per file), declaration sites by
/// token offset, universe applications and declared notation symbols.
struct Names {
    decls: Vec<(String, SemanticKind)>,
    ctors: Vec<String>,
    binders: Vec<String>,
    special: Vec<(usize, SemanticKind)>,
    universes: Vec<Span>,
    notations: Vec<String>,
}

/// The tokens are in source order and do not overlap.
pub open spec fn ordered(t: Seq<Token>) -> bool {
    &&& forall|i: int| 0 <= i < t.len() ==> (#[trigger] t[i]).span.start.offset <= t[i].span.end.offset
    &&& forall|i: int, j: int|
        0 <= i < j < t.len() ==> (#[trigger] t[i]).span.end.offset <= (#[trigger] t[j]).span.start.offset
}

/// The spans are in source order and do not overlap.
pub open spec fn spans_ordered(s: Seq<SemanticSpan>) -> bool {
    &&& forall|i: int| 0 <= i < s.len() ==> (#[trigger] s[i]).span.start.offset <= s[i].span.end.offset
    &&& forall|i: int, j: int|
        0 <= i < j < s.len() ==> (#[trigger] s[i]).span.end.offset <= (#[trigger] s[j]).span.start.offset
}

fn lookup_name(table: &Vec<(String, SemanticKind)>, name: &str) -> (r: Option<SemanticKind>)
    ensures
        r == last_entry(name_table(table@), name@),
{
    let ghost t = name_table(table@);
    let mut i: usize = table.len();
    proof {
        assert(t.take(i as int) =~= t);
    }
    while i > 0
        invariant
            i <= table@.len(),
            t == name_table(table@),
            last_entry(t, name@) == last_entry(t.take(i as int), name@),
        decreases i,
    {
        proof {
            assert(t.take(i as int).drop_last() == t.take(i as int - 1));
            assert(t.take(i as int).last() == (table@[i as int - 1].0@, table@[i as int - 1].1));
        }
        if str_eq(table[i - 1].0.as_str(), name) {
            return Some(table[i - 1].1);
        }
        i = i - 1;
    }
    proof {
        assert(t.take(0) =~= Seq::<(Seq<char>, SemanticKind)>::empty());
    }
    None
}

fn lookup_offset(table: &Vec<(usize, SemanticKind)>, offset: usize) -> (r: Option<SemanticKind>)
    ensures
        r == last_entry(table@, offset),
{
    let mut i: usize = table.len();
    proof {
        assert(table@.take(i as int) =~= table@);
    }
    while i > 0
        invariant
            i <= table@.len(),
            last_entry(table@, offset) == last_entry(table@.take(i as int), offset),
        decreases i,
    {
        proof {
            assert(table@.take(i as int).drop_last() == table@.take(i as int - 1));
        }
        if table[i - 1].0 == offset {
            return Some(table[i - 1].1);
        }
        i = i - 1;
    }
    proof {
        assert(table@.take(0) =~= Seq::<(usize, SemanticKind)>::empty());
    }
    None
}

fn contains_name(names: &Vec<String>, name: &str) -> (r: bool)
    ensures
        r == has_name(names@, name@),
{
    let mut i: usize = 0;
    while i < names.len()
        invariant
            i <= names@.len(),
            forall|j: int| 0 <= j < i ==> (#[trigger] names@[j])@ != name@,
        decreases names.len() - i,
    {
        if str_eq(names[i].as_str(), name) {
            return true;
        }
        i = i + 1;
    }
    false
}

/// The first identifier token from index `k` on that reads `name` and lies
/// in the bounds (`strict`: starting strictly after `lo`; otherwise at or
/// after it), ending by `hi`.
pub open spec fn first_ident_in(toks: Seq<Token>, name: Seq<char>, lo: usize, hi: usize, strict: bool, k: int) -> Option<
    int,
>
    decreases toks.len() - k,
{
    if k < 0 || k >= toks.len() {
        None
    } else if (if strict {
        toks[k].span.start.offset > lo
    } else {
        toks[k].span.start.offset >= lo
    }) && toks[k].span.end.offset <= hi && ident_named(toks[k].kind, name) {
        Some(k)
    } else {
        first_ident_in(toks, name, lo, hi, strict, k + 1)
    }
}

/// The token kind is an identifier reading `name`.
pub open spec fn ident_named(k: TokenKind, name: Seq<char>) -> bool {
    k matches TokenKind::Ident(s) && s@ == name
}

/// `special` after recording the site found (if any) with `kind`.
pub open spec fn with_site(special: Seq<(usize, SemanticKind)>, toks: Seq<Token>, found: Option<int>, kind: SemanticKind) -> Seq<
    (usize, SemanticKind),
> {
    match found {
        Some(i) => special.push((toks[i].span.start.offset, kind)),
        None => special,
    }
}

/// `tok` lies strictly inside one of the universe applications.
pub open spec fn spec_inside_universe(universes: Seq<Span>, tok: Token) -> bool {
    exists|i: int|
        0 <= i < universes.len() && tok.span.start.offset > (#[trigger] universes[i]).start.offset
            && tok.span.end.offset <= universes[i].end.offset
}

pub open spec fn spec_notation_kind(notations: Seq<Seq<char>>, symbol: Seq<char>) -> Option<SemanticKind> {
    if notations.contains(symbol) {
        Some(SemanticKind::Keyword)
    } else {
        None
    }
}

impl Names {
    fn new() -> (r: Names)
        ensures
            r.decls@.len() == 0,
            r.ctors@.len() == 0,
            r.binders@.len() == 0,
            r.special@.len() == 0,
            r.universes@.len() == 0,
            r.notations@.len() == 0,
    {
        Names {
            decls: Vec::new(),
            ctors: Vec::new(),
            binders: Vec::new(),
            special: Vec::new(),
            universes: Vec::new(),
            notations: Vec::new(),
        }
    }

    /// The first name token strictly after `after` and ending by `until`
    /// becomes the declaration site of `name` (declaration spans start at
    /// the command keyword, hence the strict bound).
    fn add_special(
        &mut self,
        toks: &Vec<Token>,
        name: &str,
        after: usize,
        until: usize,
        kind: SemanticKind,
    )
        ensures
            final(self).special@ == with_site(
                old(self).special@,
                toks@,
                first_ident_in(toks@, name@, after, until, true, 0),
                kind,
            ),
            final(self).decls == old(self).decls,
            final(self).ctors == old(self).ctors,
            final(self).binders == old(self).binders,
            final(self).universes == old(self).universes,
            final(self).notations == old(self).notations,
    {
        let mut i: usize = 0;
        while i < toks.len()
            invariant
                *self == *old(self),
                first_ident_in(toks@, name@, after, until, true, i as int) == first_ident_in(
                    toks@,
                    name@,
                    after,
                    until,
                    true,
                    0,
                ),
            decreases toks.len() - i,
        {
            let t = &toks[i];
            if t.span.start.offset > after && t.span.end.offset <= until {
                match &t.kind {
                    TokenKind::Ident(s) => {
                        if str_eq(s.as_str(), name) {
                            self.special.push((t.span.start.offset, kind));
                            return ;
                        }
                    },
                    _ => {},
                }
            }
            i = i + 1;
        }
    }

    /// A binder's span starts at its bracket or at the name itself.
    fn add_binder(&mut self, toks: &Vec<Token>, binder: &Binder)
        ensures
            final(self).binders@ == old(self).binders@.push(binder.name),
            final(self).special@ == with_site(
                old(self).special@,
                toks@,
                first_ident_in(toks@, binder.name@, binder.span.start.offset, binder.span.end.offset, false, 0),
                SemanticKind::Binder,
            ),
            final(self).decls == old(self).decls,
            final(self).ctors == old(self).ctors,
            final(self).universes == old(self).universes,
            final(self).notations == old(self).notations,
    {
        self.binders.push(binder.name.clone());
        let ghost mid = *self;
        let mut i: usize = 0;
        while i < toks.len()
            invariant
                *self == mid,
                mid.binders@ == old(self).binders@.push(binder.name),
                mid.special == old(self).special,
                mid.decls == old(self).decls,
                mid.ctors == old(self).ctors,
                mid.universes == old(self).universes,
                mid.notations == old(self).notations,
                first_ident_in(toks@, binder.name@, binder.span.start.offset, binder.span.end.offset, false, i as int)
                    == first_ident_in(
                    toks@,
                    binder.name@,
                    binder.span.start.offset,
                    binder.span.end.offset,
                    false,
                    0,
                ),
            decreases toks.len() - i,
        {
            let t = &toks[i];
            if t.span.start.offset >= binder.span.start.offset && t.span.end.offset
                <= binder.span.end.offset {
                match &t.kind {
                    TokenKind::Ident(s) => {
                        if str_eq(s.as_str(), binder.name.as_str()) {
                            self.special.push((t.span.start.offset, SemanticKind::Binder));
                            return ;
                        }
                    },
                    _ => {},
                }
            }
            i = i + 1;
        }
    }

    /// Whether `tok` lies inside a universe application (the head name's
    /// token starts where the application does and is not inside).
    fn inside_universe(&self, tok: &Token) -> (r: bool)
        ensures
            r == spec_inside_universe(self.universes@, *tok),
    {
        let mut i: usize = 0;
        while i < self.universes.len()
            invariant
                forall|j: int|
                    0 <= j < i ==> !(tok.span.start.offset > (#[trigger] self.universes@[j]).start.offset
                        && tok.span.end.offset <= self.universes@[j].end.offset),
            decreases self.universes.len() - i,
        {
            let u = self.universes[i];
            if tok.span.start.offset > u.start.offset && tok.span.end.offset <= u.end.offset {
                return true;
            }
            i = i + 1;
        }
        false
    }

    fn notation_kind(&self, symbol: &str) -> (r: Option<SemanticKind>)
        ensures
            r == spec_notation_kind(views_of(self.notations@), symbol@),
    {
        proof {
            lemma_has_name_views(self.notations@, symbol@);
        }
        if contains_name(&self.notations, symbol) {
            Some(SemanticKind::Keyword)
        } else {
            None
        }
    }
}

/// The canonical name of constructor `ctor` of inductive `ind` (`Prod.mk`);
/// a name that already carries the prefix stays as it is.
pub open spec fn spec_canonical_ctor_name(ind: Seq<char>, ctor: Seq<char>) -> Seq<char> {
    let prefix = ind + "."@;
    if prefix.len() <= ctor.len() && ctor.take(prefix.len() as int) == prefix {
        ctor
    } else {
        prefix + ctor
    }
}

fn canonical_ctor_name(ind: &str, ctor: &str) -> (r: String)
    ensures
        r@ == spec_canonical_ctor_name(ind@, ctor@),
{
    let prefix = crate::text::concat2(ind, ".");
    let p = chars_of(prefix.as_str());
    let c = chars_of(ctor);
    if p.len() <= c.len() {
        let mut i: usize = 0;
        while i < p.len()
            invariant
                p@ == prefix@,
                prefix@ == ind@ + "."@,
                c@ == ctor@,
                p@.len() <= c@.len(),
                i <= p@.len(),
                forall|j: int| 0 <= j < i ==> p@[j] == c@[j],
            decreases p.len() - i,
        {
            if p[i] != c[i] {
                proof {
                    assert(c@.take(p@.len() as int)[i as int] == c@[i as int]);
                    assert(c@.take(p@.len() as int) != p@);
                    assert(!(ctor@.take((ind@ + "."@).len() as int) == ind@ + "."@));
                }
                return crate::text::concat2(prefix.as_str(), ctor);
            }
            i = i + 1;
        }
        proof {
            assert(c@.take(p@.len() as int) =~= p@);
        }
        String::from_str(ctor)
    } else {
        crate::text::concat2(prefix.as_str(), ctor)
    }
}


// ---------------------------------------------------------------------------
// Walking the syntax tree for names.
// ---------------------------------------------------------------------------

/// What a walk gathers: the spans of the universe applications, the
/// binder names and the binders' declaration sites, each in source order.
pub type Gathered = (Seq<Span>, Seq<String>, Seq<(usize, SemanticKind)>);

/// What a walk goes by: the constructor names known (as text) and the
/// file's tokens.
pub type Ctx = (Seq<Seq<char>>, Seq<Token>);

pub open spec fn cx(ctors: Seq<String>, toks: Seq<Token>) -> Ctx {
    (views_of(ctors), toks)
}

pub open spec fn nothing() -> Gathered {
    (Seq::empty(), Seq::empty(), Seq::empty())
}

pub open spec fn both(a: Gathered, b: Gathered) -> Gathered {
    (a.0 + b.0, a.1 + b.1, a.2 + b.2)
}

/// The site of binder `b`: the first identifier token within its span that
/// reads its name, if any.
pub open spec fn binder_site(toks: Seq<Token>, b: Binder) -> Seq<(usize, SemanticKind)> {
    match first_ident_in(toks, b.name@, b.span.start.offset, b.span.end.offset, false, 0) {
        Some(i) => seq![(toks[i].span.start.offset, SemanticKind::Binder)],
        None => Seq::empty(),
    }
}

/// A binder recorded: its name and its site.
pub open spec fn bound(toks: Seq<Token>, b: Binder) -> Gathered {
    (Seq::empty(), seq![b.name], binder_site(toks, b))
}

/// The binders of `v` recorded in order.
pub open spec fn binders_bound(toks: Seq<Token>, v: Seq<Binder>) -> Gathered
    decreases v.len(),
{
    if v.len() == 0 {
        nothing()
    } else {
        both(binders_bound(toks, v.drop_last()), bound(toks, v.last()))
    }
}

/// The binding names of a pattern: a bare name that is no constructor
/// (not dotted, not in `ctors`), else those of its arguments.
pub open spec fn pattern_gathered(p: Pattern, ctors: Ctx) -> Gathered
    decreases p,
{
    match p {
        Pattern::Ident { name, args, span } => if args@.len() == 0 {
            if name@.contains('.') || ctors.0.contains(name@) {
                nothing()
            } else {
                bound(ctors.1, Binder { name, ty: None, style: BinderKind::Explicit, span })
            }
        } else {
            patterns_gathered(args@, ctors)
        },
        _ => nothing(),
    }
}

pub open spec fn patterns_gathered(v: Seq<Pattern>, ctors: Ctx) -> Gathered
    decreases v,
{
    if v.len() == 0 {
        nothing()
    } else {
        both(patterns_gathered(v.subrange(0, v.len() - 1), ctors), pattern_gathered(v[v.len() - 1], ctors))
    }
}

/// What the walk of an expression gathers, in the walk's order: a `let`
/// binder's type and value come before its name, the body after.
pub open spec fn expr_gathered(e: Expr, ctors: Ctx) -> Gathered
    decreases e,
{
    match e {
        Expr::UniverseApp { span, .. } => (seq![span], Seq::empty(), Seq::empty()),
        Expr::App { fun, arg, .. } => both(expr_gathered(*fun, ctors), expr_gathered(*arg, ctors)),
        Expr::Lambda { binders, body, .. } => both(
            binders_bound(ctors.1, binders@),
            expr_gathered(*body, ctors),
        ),
        Expr::Forall { binders, body, .. } => both(
            binders_bound(ctors.1, binders@),
            expr_gathered(*body, ctors),
        ),
        Expr::Arrow { domain, codomain, .. } => both(
            expr_gathered(*domain, ctors),
            expr_gathered(*codomain, ctors),
        ),
        Expr::Plus { lhs, rhs, .. } => both(expr_gathered(*lhs, ctors), expr_gathered(*rhs, ctors)),
        Expr::Let { binder, val, body, .. } => both(
            both(
                both(
                    match binder.ty {
                        Some(t) => expr_gathered(*t, ctors),
                        None => nothing(),
                    },
                    expr_gathered(*val, ctors),
                ),
                bound(ctors.1, binder),
            ),
            expr_gathered(*body, ctors),
        ),
        Expr::By { tactics, .. } => tactics_gathered(tactics@, ctors),
        Expr::Match { scrutinee, arms, .. } => both(
            expr_gathered(*scrutinee, ctors),
            arms_gathered(arms@, ctors),
        ),
        Expr::Notation { lhs, rhs, .. } => both(
            match lhs {
                Some(x) => expr_gathered(*x, ctors),
                None => nothing(),
            },
            match rhs {
                Some(x) => expr_gathered(*x, ctors),
                None => nothing(),
            },
        ),
        Expr::SetLiteral { elements, .. } => exprs_gathered(elements@, ctors),
        Expr::AnonCtor { elements, .. } => exprs_gathered(elements@, ctors),
        _ => nothing(),
    }
}

pub open spec fn exprs_gathered(v: Seq<Expr>, ctors: Ctx) -> Gathered
    decreases v,
{
    if v.len() == 0 {
        nothing()
    } else {
        both(exprs_gathered(v.subrange(0, v.len() - 1), ctors), expr_gathered(v[v.len() - 1], ctors))
    }
}

pub open spec fn arm_gathered(a: MatchArm, ctors: Ctx) -> Gathered
    decreases a,
{
    both(
        both(
            pattern_gathered(a.pattern, ctors),
            match a.guard {
                Some(g) => expr_gathered(g, ctors),
                None => nothing(),
            },
        ),
        expr_gathered(a.body, ctors),
    )
}

pub open spec fn arms_gathered(v: Seq<MatchArm>, ctors: Ctx) -> Gathered
    decreases v,
{
    if v.len() == 0 {
        nothing()
    } else {
        both(arms_gathered(v.subrange(0, v.len() - 1), ctors), arm_gathered(v[v.len() - 1], ctors))
    }
}

/// What the walk of a tactic gathers: from its terms, the scrutinee of
/// `cases` and its arms, the type and value of `have`.
pub open spec fn tactic_gathered(t: Tactic, ctors: Ctx) -> Gathered
    decreases t,
{
    match t {
        Tactic::Exact { expr, .. } => expr_gathered(expr, ctors),
        Tactic::Apply { expr, .. } => expr_gathered(expr, ctors),
        Tactic::Use { expr, .. } => expr_gathered(expr, ctors),
        Tactic::Cases { expr, arms, .. } => both(expr_gathered(expr, ctors), cases_arms_gathered(arms@, ctors)),
        Tactic::Have { ty, value, .. } => both(
            expr_gathered(ty, ctors),
            match value {
                HaveValue::Term(x) => expr_gathered(x, ctors),
                HaveValue::By(ts) => tactics_gathered(ts@, ctors),
            },
        ),
        _ => nothing(),
    }
}

pub open spec fn tactics_gathered(v: Seq<Tactic>, ctors: Ctx) -> Gathered
    decreases v,
{
    if v.len() == 0 {
        nothing()
    } else {
        both(tactics_gathered(v.subrange(0, v.len() - 1), ctors), tactic_gathered(v[v.len() - 1], ctors))
    }
}

pub open spec fn cases_arm_gathered(a: CasesArm, ctors: Ctx) -> Gathered
    decreases a,
{
    tactics_gathered(a.tactics@, ctors)
}

pub open spec fn cases_arms_gathered(v: Seq<CasesArm>, ctors: Ctx) -> Gathered
    decreases v,
{
    if v.len() == 0 {
        nothing()
    } else {
        both(
            cases_arms_gathered(v.subrange(0, v.len() - 1), ctors),
            cases_arm_gathered(v[v.len() - 1], ctors),
        )
    }
}

/// `after` is `before` with what `g` gathers appended, the declaration,
/// constructor and notation tables untouched.
spec fn walked(before: Names, after: Names, g: Gathered) -> bool {
    &&& after.universes@ == before.universes@ + g.0
    &&& after.binders@ == before.binders@ + g.1
    &&& after.special@ == before.special@ + g.2
    &&& after.decls == before.decls
    &&& after.ctors == before.ctors
    &&& after.notations == before.notations
}

proof fn lemma_walked_same(a: Names)
    ensures
        walked(a, a, nothing()),
{
    assert(a.universes@ + Seq::<Span>::empty() =~= a.universes@);
    assert(a.binders@ + Seq::<String>::empty() =~= a.binders@);
    assert(a.special@ + Seq::<(usize, SemanticKind)>::empty() =~= a.special@);
}

proof fn lemma_has_name_views(v: Seq<String>, n: Seq<char>)
    ensures
        has_name(v, n) == v.map_values(|c: String| c@).contains(n),
{
    let w = v.map_values(|c: String| c@);
    if has_name(v, n) {
        let i = choose|i: int| 0 <= i < v.len() && (#[trigger] v[i])@ == n;
        assert(w[i] == n);
    }
    if w.contains(n) {
        let i = choose|i: int| 0 <= i < w.len() && w[i] == n;
        assert(v[i]@ == n);
    }
}

/// `add_binder` records exactly what `bound` says.
proof fn lemma_binder_walked(a: Names, b: Names, toks: Seq<Token>, binder: Binder)
    requires
        b.binders@ == a.binders@.push(binder.name),
        b.special@ == with_site(
            a.special@,
            toks,
            first_ident_in(toks, binder.name@, binder.span.start.offset, binder.span.end.offset, false, 0),
            SemanticKind::Binder,
        ),
        b.decls == a.decls,
        b.ctors == a.ctors,
        b.universes == a.universes,
        b.notations == a.notations,
    ensures
        walked(a, b, bound(toks, binder)),
{
    assert(b.universes@ =~= a.universes@ + Seq::<Span>::empty());
    assert(b.binders@ =~= a.binders@ + seq![binder.name]);
    assert(b.special@ =~= a.special@ + binder_site(toks, binder));
}

proof fn lemma_walked_trans(a: Names, b: Names, c: Names, g1: Gathered, g2: Gathered)
    requires
        walked(a, b, g1),
        walked(b, c, g2),
    ensures
        walked(a, c, both(g1, g2)),
{
    assert(a.universes@ + g1.0 + g2.0 =~= a.universes@ + (g1.0 + g2.0));
    assert(a.binders@ + g1.1 + g2.1 =~= a.binders@ + (g1.1 + g2.1));
    assert(a.special@ + g1.2 + g2.2 =~= a.special@ + (g1.2 + g2.2));
}

fn walk_expr(expr: &Expr, toks: &Vec<Token>, names: &mut Names)
    ensures
        walked(*old(names), *final(names), expr_gathered(*expr, cx(old(names).ctors@, toks@))),
    decreases expr, 0nat,
{
    let ghost n0 = *names;
    let ghost ctors = cx(names.ctors@, toks@);
    match expr {
        Expr::Sort { .. } | Expr::Ident { .. } | Expr::Num { .. } | Expr::Hole { .. } => {
            proof {
                lemma_walked_same(n0);
            }
        },
        Expr::UniverseApp { span, .. } => {
            names.universes.push(*span);
            proof {
                assert(names.universes@ =~= n0.universes@ + seq![*span]);
                assert(names.binders@ =~= n0.binders@ + Seq::<String>::empty());
                assert(names.special@ =~= n0.special@ + Seq::<(usize, SemanticKind)>::empty());
            }
        },
        Expr::App { fun, arg, .. } => {
            walk_expr(fun, toks, names);
            let ghost n1 = *names;
            walk_expr(arg, toks, names);
            proof {
                lemma_walked_trans(n0, n1, *names, expr_gathered(**fun, ctors), expr_gathered(**arg, ctors));
            }
        },
        Expr::Lambda { binders, body, .. } | Expr::Forall { binders, body, .. } => {
            let mut i: usize = 0;
            proof {
                lemma_walked_same(n0);
                assert(binders@.subrange(0, 0) =~= Seq::<Binder>::empty());
            }
            while i < binders.len()
                invariant
                    i <= binders@.len(),
                    walked(n0, *names, binders_bound(toks@, binders@.subrange(0, i as int))),
                decreases binders.len() - i,
            {
                let ghost before = *names;
                names.add_binder(toks, &binders[i]);
                proof {
                    lemma_binder_walked(before, *names, toks@, binders@[i as int]);
                    assert(binders@.subrange(0, i + 1).drop_last() =~= binders@.subrange(0, i as int));
                    lemma_walked_trans(
                        n0,
                        before,
                        *names,
                        binders_bound(toks@, binders@.subrange(0, i as int)),
                        bound(toks@, binders@[i as int]),
                    );
                }
                i = i + 1;
            }
            let ghost n1 = *names;
            walk_expr(body, toks, names);
            proof {
                assert(binders@.subrange(0, binders@.len() as int) =~= binders@);
                lemma_walked_trans(
                    n0,
                    n1,
                    *names,
                    binders_bound(toks@, binders@),
                    expr_gathered(**body, ctors),
                );
            }
        },
        Expr::Arrow { domain, codomain, .. } => {
            walk_expr(domain, toks, names);
            let ghost n1 = *names;
            walk_expr(codomain, toks, names);
            proof {
                lemma_walked_trans(n0, n1, *names, expr_gathered(**domain, ctors), expr_gathered(**codomain, ctors));
            }
        },
        Expr::Plus { lhs, rhs, .. } => {
            walk_expr(lhs, toks, names);
            let ghost n1 = *names;
            walk_expr(rhs, toks, names);
            proof {
                lemma_walked_trans(n0, n1, *names, expr_gathered(**lhs, ctors), expr_gathered(**rhs, ctors));
            }
        },
        Expr::Let { binder, val, body, .. } => {
            // The binder's type and value live in the outer scope; the name
            // is visible in the body only.
            let ghost gt = match &binder.ty {
                Some(t) => expr_gathered(**t, ctors),
                None => nothing(),
            };
            match &binder.ty {
                Some(ty) => walk_expr(ty, toks, names),
                None => {
                    proof {
                        lemma_walked_same(n0);
                    }
                },
            }
            let ghost n1 = *names;
            walk_expr(val, toks, names);
            let ghost n2 = *names;
            proof {
                lemma_walked_trans(n0, n1, n2, gt, expr_gathered(**val, ctors));
            }
            names.add_binder(toks, binder);
            let ghost n3 = *names;
            proof {
                lemma_binder_walked(n2, n3, toks@, *binder);
                lemma_walked_trans(n0, n2, n3, both(gt, expr_gathered(**val, ctors)), bound(toks@, *binder));
            }
            walk_expr(body, toks, names);
            proof {
                lemma_walked_trans(
                    n0,
                    n3,
                    *names,
                    both(both(gt, expr_gathered(**val, ctors)), bound(toks@, *binder)),
                    expr_gathered(**body, ctors),
                );
            }
        },
        Expr::By { tactics, .. } => walk_tactics(tactics, toks, names),
        Expr::Match { scrutinee, arms, .. } => {
            walk_expr(scrutinee, toks, names);
            let ghost n1 = *names;
            walk_match_arms(arms, toks, names);
            proof {
                lemma_walked_trans(n0, n1, *names, expr_gathered(**scrutinee, ctors), arms_gathered(arms@, ctors));
            }
        },
        Expr::Notation { lhs, rhs, .. } => {
            let ghost gl = match lhs {
                Some(x) => expr_gathered(**x, ctors),
                None => nothing(),
            };
            let ghost gr = match rhs {
                Some(x) => expr_gathered(**x, ctors),
                None => nothing(),
            };
            match lhs {
                Some(e) => walk_expr(e, toks, names),
                None => {
                    proof {
                        lemma_walked_same(n0);
                    }
                },
            }
            let ghost n1 = *names;
            match rhs {
                Some(e) => walk_expr(e, toks, names),
                None => {
                    proof {
                        lemma_walked_same(n1);
                    }
                },
            }
            proof {
                lemma_walked_trans(n0, n1, *names, gl, gr);
            }
        },
        Expr::SetLiteral { elements, .. } | Expr::AnonCtor { elements, .. } => {
            walk_exprs(elements, toks, names)
        },
    }
}

fn walk_exprs(v: &Vec<Expr>, toks: &Vec<Token>, names: &mut Names)
    ensures
        walked(*old(names), *final(names), exprs_gathered(v@, cx(old(names).ctors@, toks@))),
    decreases v, 1nat,
{
    let ghost n0 = *names;
    let ghost ctors = cx(names.ctors@, toks@);
    let mut i: usize = 0;
    proof {
        lemma_walked_same(n0);
        assert(v@.subrange(0, 0) =~= Seq::<Expr>::empty());
    }
    while i < v.len()
        invariant
            i <= v@.len(),
            ctors == cx(n0.ctors@, toks@),
            walked(n0, *names, exprs_gathered(v@.subrange(0, i as int), ctors)),
        decreases v.len() - i,
    {
        proof {
            assert(decreases_to!(v => v@));
        }
        let ghost before = *names;
        walk_expr(&v[i], toks, names);
        proof {
            let s1 = v@.subrange(0, i + 1);
            assert(s1.subrange(0, s1.len() - 1) =~= v@.subrange(0, i as int));
            assert(s1[s1.len() - 1] == v@[i as int]);
            lemma_walked_trans(
                n0,
                before,
                *names,
                exprs_gathered(v@.subrange(0, i as int), ctors),
                expr_gathered(v@[i as int], ctors),
            );
        }
        i = i + 1;
    }
    proof {
        assert(v@.subrange(0, v@.len() as int) =~= v@);
    }
}

fn walk_match_arm(arm: &MatchArm, toks: &Vec<Token>, names: &mut Names)
    ensures
        walked(*old(names), *final(names), arm_gathered(*arm, cx(old(names).ctors@, toks@))),
    decreases arm, 0nat,
{
    let ghost n0 = *names;
    let ghost ctors = cx(names.ctors@, toks@);
    let ghost gg = match &arm.guard {
        Some(g) => expr_gathered(*g, ctors),
        None => nothing(),
    };
    add_pattern_binders(&arm.pattern, toks, names);
    let ghost n1 = *names;
    match &arm.guard {
        Some(g) => walk_expr(g, toks, names),
        None => {
            proof {
                lemma_walked_same(n1);
            }
        },
    }
    let ghost n2 = *names;
    proof {
        lemma_walked_trans(n0, n1, n2, pattern_gathered(arm.pattern, ctors), gg);
    }
    walk_expr(&arm.body, toks, names);
    proof {
        lemma_walked_trans(
            n0,
            n2,
            *names,
            both(pattern_gathered(arm.pattern, ctors), gg),
            expr_gathered(arm.body, ctors),
        );
    }
}

fn walk_match_arms(v: &Vec<MatchArm>, toks: &Vec<Token>, names: &mut Names)
    ensures
        walked(*old(names), *final(names), arms_gathered(v@, cx(old(names).ctors@, toks@))),
    decreases v, 1nat,
{
    let ghost n0 = *names;
    let ghost ctors = cx(names.ctors@, toks@);
    let mut i: usize = 0;
    proof {
        lemma_walked_same(n0);
        assert(v@.subrange(0, 0) =~= Seq::<MatchArm>::empty());
    }
    while i < v.len()
        invariant
            i <= v@.len(),
            ctors == cx(n0.ctors@, toks@),
            walked(n0, *names, arms_gathered(v@.subrange(0, i as int), ctors)),
        decreases v.len() - i,
    {
        proof {
            assert(decreases_to!(v => v@));
        }
        let ghost before = *names;
        walk_match_arm(&v[i], toks, names);
        proof {
            let s1 = v@.subrange(0, i + 1);
            assert(s1.subrange(0, s1.len() - 1) =~= v@.subrange(0, i as int));
            assert(s1[s1.len() - 1] == v@[i as int]);
            lemma_walked_trans(
                n0,
                before,
                *names,
                arms_gathered(v@.subrange(0, i as int), ctors),
                arm_gathered(v@[i as int], ctors),
            );
        }
        i = i + 1;
    }
    proof {
        assert(v@.subrange(0, v@.len() as int) =~= v@);
    }
}

/// The expressions of a tactic: the terms of `exact`/`apply`/`use`, the
/// scrutinee of `cases` and its arms' tactics, the type and value of `have`.
fn walk_tactic(tactic: &Tactic, toks: &Vec<Token>, names: &mut Names)
    ensures
        walked(*old(names), *final(names), tactic_gathered(*tactic, cx(old(names).ctors@, toks@))),
    decreases tactic, 0nat,
{
    let ghost n0 = *names;
    let ghost ctors = cx(names.ctors@, toks@);
    match tactic {
        Tactic::Intro { .. } => {
            proof {
                lemma_walked_same(n0);
            }
        },
        Tactic::Exact { expr, .. } | Tactic::Apply { expr, .. } | Tactic::Use { expr, .. } => {
            walk_expr(expr, toks, names)
        },
        Tactic::Cases { expr, arms, .. } => {
            walk_expr(expr, toks, names);
            let ghost n1 = *names;
            walk_cases_arms(arms, toks, names);
            proof {
                lemma_walked_trans(n0, n1, *names, expr_gathered(*expr, ctors), cases_arms_gathered(arms@, ctors));
            }
        },
        Tactic::Have { ty, value, .. } => {
            walk_expr(ty, toks, names);
            let ghost n1 = *names;
            let ghost gv = match value {
                HaveValue::Term(x) => expr_gathered(*x, ctors),
                HaveValue::By(ts) => tactics_gathered(ts@, ctors),
            };
            match value {
                HaveValue::Term(e) => walk_expr(e, toks, names),
                HaveValue::By(ts) => walk_tactics(ts, toks, names),
            }
            proof {
                lemma_walked_trans(n0, n1, *names, expr_gathered(*ty, ctors), gv);
            }
        },
        Tactic::Assumption { .. }
        | Tactic::Rfl { .. }
        | Tactic::Constructor { .. }
        | Tactic::Left { .. }
        | Tactic::Right { .. }
        | Tactic::Exfalso { .. }
        | Tactic::Sorry { .. } => {
            proof {
                lemma_walked_same(n0);
            }
        },
    }
}

fn walk_tactics(v: &Vec<Tactic>, toks: &Vec<Token>, names: &mut Names)
    ensures
        walked(*old(names), *final(names), tactics_gathered(v@, cx(old(names).ctors@, toks@))),
    decreases v, 1nat,
{
    let ghost n0 = *names;
    let ghost ctors = cx(names.ctors@, toks@);
    let mut i: usize = 0;
    proof {
        lemma_walked_same(n0);
        assert(v@.subrange(0, 0) =~= Seq::<Tactic>::empty());
    }
    while i < v.len()
        invariant
            i <= v@.len(),
            ctors == cx(n0.ctors@, toks@),
            walked(n0, *names, tactics_gathered(v@.subrange(0, i as int), ctors)),
        decreases v.len() - i,
    {
        proof {
            assert(decreases_to!(v => v@));
        }
        let ghost before = *names;
        walk_tactic(&v[i], toks, names);
        proof {
            let s1 = v@.subrange(0, i + 1);
            assert(s1.subrange(0, s1.len() - 1) =~= v@.subrange(0, i as int));
            assert(s1[s1.len() - 1] == v@[i as int]);
            lemma_walked_trans(
                n0,
                before,
                *names,
                tactics_gathered(v@.subrange(0, i as int), ctors),
                tactic_gathered(v@[i as int], ctors),
            );
        }
        i = i + 1;
    }
    proof {
        assert(v@.subrange(0, v@.len() as int) =~= v@);
    }
}

fn walk_cases_arm(arm: &CasesArm, toks: &Vec<Token>, names: &mut Names)
    ensures
        walked(*old(names), *final(names), cases_arm_gathered(*arm, cx(old(names).ctors@, toks@))),
    decreases arm, 0nat,
{
    walk_tactics(&arm.tactics, toks, names);
}

fn walk_cases_arms(v: &Vec<CasesArm>, toks: &Vec<Token>, names: &mut Names)
    ensures
        walked(*old(names), *final(names), cases_arms_gathered(v@, cx(old(names).ctors@, toks@))),
    decreases v, 1nat,
{
    let ghost n0 = *names;
    let ghost ctors = cx(names.ctors@, toks@);
    let mut i: usize = 0;
    proof {
        lemma_walked_same(n0);
        assert(v@.subrange(0, 0) =~= Seq::<CasesArm>::empty());
    }
    while i < v.len()
        invariant
            i <= v@.len(),
            ctors == cx(n0.ctors@, toks@),
            walked(n0, *names, cases_arms_gathered(v@.subrange(0, i as int), ctors)),
        decreases v.len() - i,
    {
        proof {
            assert(decreases_to!(v => v@));
        }
        let ghost before = *names;
        walk_cases_arm(&v[i], toks, names);
        proof {
            let s1 = v@.subrange(0, i + 1);
            assert(s1.subrange(0, s1.len() - 1) =~= v@.subrange(0, i as int));
            assert(s1[s1.len() - 1] == v@[i as int]);
            lemma_walked_trans(
                n0,
                before,
                *names,
                cases_arms_gathered(v@.subrange(0, i as int), ctors),
                cases_arm_gathered(v@[i as int], ctors),
            );
        }
        i = i + 1;
    }
    proof {
        assert(v@.subrange(0, v@.len() as int) =~= v@);
    }
}

/// The binding positions of a pattern (constructor names belong to the
/// constructor table; a dotted name is always a constructor).
fn add_pattern_binders(pat: &Pattern, toks: &Vec<Token>, names: &mut Names)
    ensures
        walked(*old(names), *final(names), pattern_gathered(*pat, cx(old(names).ctors@, toks@))),
    decreases pat, 0nat,
{
    let ghost n0 = *names;
    proof {
        lemma_walked_same(n0);
    }
    match pat {
        Pattern::Ident { name, .. } => {
            proof {
                lemma_has_name_views(names.ctors@, name@);
            }
        },
        _ => {},
    }
    match pat {
        Pattern::Wild { .. } | Pattern::Num { .. } => {},
        Pattern::Ident { name, args, span } => {
            if args.len() == 0 {
                if contains_char(name.as_str(), '.') || contains_name(&names.ctors, name.as_str()) {
                    return ;
                }
                let binder = Binder {
                    name: name.clone(),
                    ty: None,
                    style: BinderKind::Explicit,
                    span: *span,
                };
                names.add_binder(toks, &binder);
                proof {
                    lemma_binder_walked(n0, *names, toks@, binder);
                }
            } else {
                add_patterns_binders(args, toks, names);
            }
        },
    }
}

fn add_patterns_binders(v: &Vec<Pattern>, toks: &Vec<Token>, names: &mut Names)
    ensures
        walked(*old(names), *final(names), patterns_gathered(v@, cx(old(names).ctors@, toks@))),
    decreases v, 1nat,
{
    let ghost n0 = *names;
    let ghost ctors = cx(names.ctors@, toks@);
    let mut i: usize = 0;
    proof {
        lemma_walked_same(n0);
        assert(v@.subrange(0, 0) =~= Seq::<Pattern>::empty());
    }
    while i < v.len()
        invariant
            i <= v@.len(),
            ctors == cx(n0.ctors@, toks@),
            walked(n0, *names, patterns_gathered(v@.subrange(0, i as int), ctors)),
        decreases v.len() - i,
    {
        proof {
            assert(decreases_to!(v => v@));
        }
        let ghost before = *names;
        add_pattern_binders(&v[i], toks, names);
        proof {
            let s1 = v@.subrange(0, i + 1);
            assert(s1.subrange(0, s1.len() - 1) =~= v@.subrange(0, i as int));
            assert(s1[s1.len() - 1] == v@[i as int]);
            lemma_walked_trans(
                n0,
                before,
                *names,
                patterns_gathered(v@.subrange(0, i as int), ctors),
                pattern_gathered(v@[i as int], ctors),
            );
        }
        i = i + 1;
    }
    proof {
        assert(v@.subrange(0, v@.len() as int) =~= v@);
    }
}

/// The name tables as plain values: the declarations (with their use
/// kinds), the constructor names, the notation symbols, the universe
/// applications, the binder names and the declaration sites.
pub type NamesView = (
    Seq<(Seq<char>, SemanticKind)>,
    Seq<Seq<char>>,
    Seq<Seq<char>>,
    Seq<Span>,
    Seq<String>,
    Seq<(usize, SemanticKind)>,
);

spec fn view_of(n: Names) -> NamesView {
    (name_table(n.decls@), views_of(n.ctors@), views_of(n.notations@), n.universes@, n.binders@, n.special@)
}

/// The tables with what a walk gathered appended.
pub open spec fn gather(s: NamesView, g: Gathered) -> NamesView {
    (s.0, s.1, s.2, s.3 + g.0, s.4 + g.1, s.5 + g.2)
}

/// The tables after walking `e` with the constructors known so far.
pub open spec fn walk_view(s: NamesView, e: Expr, toks: Seq<Token>) -> NamesView {
    gather(s, expr_gathered(e, (s.1, toks)))
}

/// The declaration site of `name` in the command spanning `span`: the first
/// identifier token reading `name` that starts after the span's start and
/// ends by its end, if any.
pub open spec fn decl_site(toks: Seq<Token>, name: Seq<char>, span: Span, kind: SemanticKind) -> Seq<
    (usize, SemanticKind),
> {
    match first_ident_in(toks, name, span.start.offset, span.end.offset, true, 0) {
        Some(i) => seq![(toks[i].span.start.offset, kind)],
        None => Seq::empty(),
    }
}

/// The tables after declaring `name` (with its use kind) and recording its
/// site.
pub open spec fn declare(
    s: NamesView,
    toks: Seq<Token>,
    name: Seq<char>,
    span: Span,
    use_kind: SemanticKind,
    site_kind: SemanticKind,
) -> NamesView {
    (s.0.push((name, use_kind)), s.1, s.2, s.3, s.4, s.5 + decl_site(toks, name, span, site_kind))
}

/// An inductive's parameters: each binder recorded, then its type walked.
pub open spec fn params_view(s: NamesView, ps: Seq<Binder>, toks: Seq<Token>) -> NamesView
    decreases ps.len(),
{
    if ps.len() == 0 {
        s
    } else {
        let s1 = gather(params_view(s, ps.drop_last(), toks), bound(toks, ps.last()));
        match ps.last().ty {
            Some(t) => walk_view(s1, *t, toks),
            None => s1,
        }
    }
}

/// An inductive's constructors: each one's source and canonical names
/// recorded, its site, its binders, then its result type walked.
pub open spec fn ctors_view(s: NamesView, ind: Seq<char>, cs: Seq<crate::ast::CtorDecl>, toks: Seq<Token>) -> NamesView
    decreases cs.len(),
{
    if cs.len() == 0 {
        s
    } else {
        let s0 = ctors_view(s, ind, cs.drop_last(), toks);
        let c = cs.last();
        let s1 = (
            s0.0,
            s0.1 + seq![c.name@, spec_canonical_ctor_name(ind, c.name@)],
            s0.2,
            s0.3,
            s0.4,
            s0.5 + decl_site(toks, c.name@, c.span, SemanticKind::CtorName),
        );
        walk_view(gather(s1, binders_bound(toks, c.binders@)), c.result, toks)
    }
}

/// The iota rules' values walked in order.
pub open spec fn iotas_view(s: NamesView, rules: Seq<crate::ast::IotaRule>, toks: Seq<Token>) -> NamesView
    decreases rules.len(),
{
    if rules.len() == 0 {
        s
    } else {
        walk_view(iotas_view(s, rules.drop_last(), toks), rules.last().val, toks)
    }
}

/// The tables after one command.
pub open spec fn command_view(s: NamesView, c: Command, toks: Seq<Token>) -> NamesView {
    match c {
        Command::Def { name, ty, val, span, .. } => walk_view(
            walk_view(declare(s, toks, name@, span, SemanticKind::DefUse, SemanticKind::DefName), ty, toks),
            val,
            toks,
        ),
        Command::Theorem { name, ty, val, span, .. } => walk_view(
            walk_view(
                declare(s, toks, name@, span, SemanticKind::TheoremUse, SemanticKind::TheoremName),
                ty,
                toks,
            ),
            val,
            toks,
        ),
        Command::Example { ty, val, .. } => walk_view(walk_view(s, ty, toks), val, toks),
        Command::Axiom { name, ty, span, .. } => walk_view(
            declare(s, toks, name@, span, SemanticKind::AxiomUse, SemanticKind::AxiomName),
            ty,
            toks,
        ),
        Command::InductiveBlock { name, params, ty, constructors, recursor, iota_rules, span } => {
            let s1 = declare(s, toks, name@, span, SemanticKind::InductiveUse, SemanticKind::InductiveName);
            let s2 = walk_view(params_view(s1, params@, toks), ty, toks);
            let s3 = ctors_view(s2, name@, constructors@, toks);
            let s4 = match recursor {
                Some(rec) => walk_view(s3, rec.ty, toks),
                None => s3,
            };
            iotas_view(s4, iota_rules@, toks)
        },
        Command::Check { expr, .. } => walk_view(s, expr, toks),
        Command::Reduce { expr, .. } => walk_view(s, expr, toks),
        Command::Notation { symbol, .. } => (s.0, s.1, s.2.push(symbol@), s.3, s.4, s.5),
        _ => s,
    }
}

/// The tables after the commands in order (each `open … in` taken for the
/// command it wraps).
pub open spec fn collected_view(s: NamesView, cmds: Seq<Command>, toks: Seq<Token>) -> NamesView
    decreases cmds.len(),
{
    if cmds.len() == 0 {
        s
    } else {
        command_view(collected_view(s, cmds.drop_last(), toks), crate::ast::innermost(cmds.last()), toks)
    }
}

pub open spec fn views_of(v: Seq<String>) -> Seq<Seq<char>> {
    v.map_values(|s: String| s@)
}

proof fn lemma_gather_walked(a: Names, b: Names, g: Gathered)
    requires
        walked(a, b, g),
    ensures
        view_of(b) == gather(view_of(a), g),
{
}

proof fn lemma_walk_view(a: Names, b: Names, e: Expr, toks: Seq<Token>)
    requires
        walked(a, b, expr_gathered(e, cx(a.ctors@, toks))),
    ensures
        view_of(b) == walk_view(view_of(a), e, toks),
{
    assert(cx(a.ctors@, toks) == (view_of(a).1, toks));
}

proof fn lemma_gather_both(s: NamesView, g1: Gathered, g2: Gathered)
    ensures
        gather(gather(s, g1), g2) == gather(s, both(g1, g2)),
{
    assert(s.3 + g1.0 + g2.0 =~= s.3 + (g1.0 + g2.0));
    assert(s.4 + g1.1 + g2.1 =~= s.4 + (g1.1 + g2.1));
    assert(s.5 + g1.2 + g2.2 =~= s.5 + (g1.2 + g2.2));
}

proof fn lemma_gather_nothing(s: NamesView)
    ensures
        gather(s, nothing()) == s,
{
    assert(s.3 + Seq::<Span>::empty() =~= s.3);
    assert(s.4 + Seq::<String>::empty() =~= s.4);
    assert(s.5 + Seq::<(usize, SemanticKind)>::empty() =~= s.5);
}

/// A declaration site recorded by `add_special`.
proof fn lemma_site_view(a: Names, b: Names, toks: Seq<Token>, name: Seq<char>, span: Span, kind: SemanticKind)
    requires
        b.special@ == with_site(
            a.special@,
            toks,
            first_ident_in(toks, name, span.start.offset, span.end.offset, true, 0),
            kind,
        ),
        b.decls == a.decls,
        b.ctors == a.ctors,
        b.binders == a.binders,
        b.universes == a.universes,
        b.notations == a.notations,
    ensures
        view_of(b) == (
            view_of(a).0,
            view_of(a).1,
            view_of(a).2,
            view_of(a).3,
            view_of(a).4,
            view_of(a).5 + decl_site(toks, name, span, kind),
        ),
{
    assert(b.special@ =~= a.special@ + decl_site(toks, name, span, kind));
}

/// A declaration pushed and its site recorded.
proof fn lemma_declared(
    a: Names,
    m: Names,
    b: Names,
    toks: Seq<Token>,
    entry: (String, SemanticKind),
    span: Span,
    site_kind: SemanticKind,
)
    requires
        m.decls@ == a.decls@.push(entry),
        m.ctors == a.ctors,
        m.notations == a.notations,
        m.universes == a.universes,
        m.binders == a.binders,
        m.special == a.special,
        b.special@ == with_site(
            m.special@,
            toks,
            first_ident_in(toks, entry.0@, span.start.offset, span.end.offset, true, 0),
            site_kind,
        ),
        b.decls == m.decls,
        b.ctors == m.ctors,
        b.binders == m.binders,
        b.universes == m.universes,
        b.notations == m.notations,
    ensures
        view_of(b) == declare(view_of(a), toks, entry.0@, span, entry.1, site_kind),
{
    assert(name_table(m.decls@) =~= name_table(a.decls@).push((entry.0@, entry.1)));
    lemma_site_view(m, b, toks, entry.0@, span, site_kind);
}

/// Gather the names of a parsed file into `names`: declarations with their
/// use kinds, constructors, notation symbols, binders and universe
/// applications, and the declaration sites among the tokens.
fn collect_names(file: &FolFile, toks: &Vec<Token>, names: &mut Names)
    ensures
        view_of(*final(names)) == collected_view(view_of(*old(names)), file.commands@, toks@),
{
    let cmds = effective_commands(file);
    let ghost start = view_of(*names);
    proof {
        assert(file.commands@.take(0) =~= Seq::<Command>::empty());
    }
    let mut k: usize = 0;
    while k < cmds.len()
        invariant
            k <= cmds@.len(),
            cmds@.len() == file.commands@.len(),
            forall|i: int| 0 <= i < cmds@.len() ==> *(#[trigger] cmds@[i]) == crate::ast::innermost(file.commands@[i]),
            start == view_of(*old(names)),
            view_of(*names) == collected_view(start, file.commands@.take(k as int), toks@),
        decreases cmds.len() - k,
    {
        let ghost nk = *names;
        let ghost v0 = view_of(*names);
        let ghost c = *cmds@[k as int];
        proof {
            assert(file.commands@.take(k as int + 1).drop_last() == file.commands@.take(k as int));
            assert(file.commands@.take(k as int + 1).last() == file.commands@[k as int]);
        }
        match cmds[k] {
            Command::Import { .. } => {},
            Command::Def { name, ty, val, span, .. } => {
                let entry = (name.clone(), SemanticKind::DefUse);
                names.decls.push(entry);
                let ghost m = *names;
                names.add_special(
                    toks,
                    name.as_str(),
                    span.start.offset,
                    span.end.offset,
                    SemanticKind::DefName,
                );
                proof {
                    lemma_declared(nk, m, *names, toks@, entry, *span, SemanticKind::DefName);
                }
                let ghost n2 = *names;
                walk_expr(ty, toks, names);
                proof {
                    lemma_walk_view(n2, *names, *ty, toks@);
                }
                let ghost n3 = *names;
                walk_expr(val, toks, names);
                proof {
                    lemma_walk_view(n3, *names, *val, toks@);
                }
            },
            Command::Theorem { name, ty, val, span, .. } => {
                let entry = (name.clone(), SemanticKind::TheoremUse);
                names.decls.push(entry);
                let ghost m = *names;
                names.add_special(
                    toks,
                    name.as_str(),
                    span.start.offset,
                    span.end.offset,
                    SemanticKind::TheoremName,
                );
                proof {
                    lemma_declared(nk, m, *names, toks@, entry, *span, SemanticKind::TheoremName);
                }
                let ghost n2 = *names;
                walk_expr(ty, toks, names);
                proof {
                    lemma_walk_view(n2, *names, *ty, toks@);
                }
                let ghost n3 = *names;
                walk_expr(val, toks, names);
                proof {
                    lemma_walk_view(n3, *names, *val, toks@);
                }
            },
            Command::Example { ty, val, .. } => {
                walk_expr(ty, toks, names);
                proof {
                    lemma_walk_view(nk, *names, *ty, toks@);
                }
                let ghost n2 = *names;
                walk_expr(val, toks, names);
                proof {
                    lemma_walk_view(n2, *names, *val, toks@);
                }
            },
            Command::Axiom { name, ty, span, .. } => {
                let entry = (name.clone(), SemanticKind::AxiomUse);
                names.decls.push(entry);
                let ghost m = *names;
                names.add_special(
                    toks,
                    name.as_str(),
                    span.start.offset,
                    span.end.offset,
                    SemanticKind::AxiomName,
                );
                proof {
                    lemma_declared(nk, m, *names, toks@, entry, *span, SemanticKind::AxiomName);
                }
                let ghost n2 = *names;
                walk_expr(ty, toks, names);
                proof {
                    lemma_walk_view(n2, *names, *ty, toks@);
                }
            },
            Command::InductiveBlock {
                name,
                params,
                ty,
                constructors,
                recursor,
                iota_rules,
                span,
            } => {
                let entry = (name.clone(), SemanticKind::InductiveUse);
                names.decls.push(entry);
                let ghost m = *names;
                names.add_special(
                    toks,
                    name.as_str(),
                    span.start.offset,
                    span.end.offset,
                    SemanticKind::InductiveName,
                );
                let ghost s1 = view_of(*names);
                proof {
                    lemma_declared(nk, m, *names, toks@, entry, *span, SemanticKind::InductiveName);
                    assert(params@.take(0) =~= Seq::<Binder>::empty());
                }
                let mut i: usize = 0;
                while i < params.len()
                    invariant
                        i <= params@.len(),
                        view_of(*names) == params_view(s1, params@.take(i as int), toks@),
                    decreases params.len() - i,
                {
                    proof {
                        assert(params@.take(i as int + 1).drop_last() == params@.take(i as int));
                        assert(params@.take(i as int + 1).last() == params@[i as int]);
                    }
                    let ghost m0 = *names;
                    names.add_binder(toks, &params[i]);
                    proof {
                        lemma_binder_walked(m0, *names, toks@, params@[i as int]);
                        lemma_gather_walked(m0, *names, bound(toks@, params@[i as int]));
                    }
                    let ghost m1 = *names;
                    match &params[i].ty {
                        Some(param_ty) => {
                            walk_expr(param_ty, toks, names);
                            proof {
                                lemma_walk_view(m1, *names, **param_ty, toks@);
                            }
                        },
                        None => {},
                    }
                    i = i + 1;
                }
                proof {
                    assert(params@.take(params@.len() as int) == params@);
                }
                let ghost n2 = *names;
                walk_expr(ty, toks, names);
                let ghost s2 = view_of(*names);
                proof {
                    lemma_walk_view(n2, *names, *ty, toks@);
                    assert(constructors@.take(0) =~= Seq::<crate::ast::CtorDecl>::empty());
                }
                let mut i: usize = 0;
                while i < constructors.len()
                    invariant
                        i <= constructors@.len(),
                        view_of(*names) == ctors_view(s2, name@, constructors@.take(i as int), toks@),
                    decreases constructors.len() - i,
                {
                    let ctor = &constructors[i];
                    proof {
                        assert(constructors@.take(i as int + 1).drop_last() == constructors@.take(i as int));
                        assert(constructors@.take(i as int + 1).last() == constructors@[i as int]);
                    }
                    let ghost m0 = *names;
                    // Both the source name (`mk`) and the canonical one
                    // (`Wrap.mk`) are constructor uses.
                    names.ctors.push(ctor.name.clone());
                    let canonical = canonical_ctor_name(name.as_str(), ctor.name.as_str());
                    let ghost cv = canonical@;
                    names.ctors.push(canonical);
                    proof {
                        assert(views_of(names.ctors@) =~= views_of(m0.ctors@) + seq![ctor.name@, cv]);
                    }
                    let ghost m1 = *names;
                    names.add_special(
                        toks,
                        ctor.name.as_str(),
                        ctor.span.start.offset,
                        ctor.span.end.offset,
                        SemanticKind::CtorName,
                    );
                    proof {
                        lemma_site_view(m1, *names, toks@, ctor.name@, ctor.span, SemanticKind::CtorName);
                        assert(ctor.binders@.take(0) =~= Seq::<Binder>::empty());
                        lemma_gather_nothing(view_of(*names));
                    }
                    let ghost sc = view_of(*names);
                    let mut j: usize = 0;
                    while j < ctor.binders.len()
                        invariant
                            j <= ctor.binders@.len(),
                            view_of(*names) == gather(sc, binders_bound(toks@, ctor.binders@.take(j as int))),
                        decreases ctor.binders.len() - j,
                    {
                        let ghost q0 = *names;
                        names.add_binder(toks, &ctor.binders[j]);
                        proof {
                            lemma_binder_walked(q0, *names, toks@, ctor.binders@[j as int]);
                            lemma_gather_walked(q0, *names, bound(toks@, ctor.binders@[j as int]));
                            assert(ctor.binders@.take(j as int + 1).drop_last() == ctor.binders@.take(j as int));
                            assert(ctor.binders@.take(j as int + 1).last() == ctor.binders@[j as int]);
                            lemma_gather_both(
                                sc,
                                binders_bound(toks@, ctor.binders@.take(j as int)),
                                bound(toks@, ctor.binders@[j as int]),
                            );
                        }
                        j = j + 1;
                    }
                    proof {
                        assert(ctor.binders@.take(ctor.binders@.len() as int) == ctor.binders@);
                    }
                    let ghost m2 = *names;
                    walk_expr(&ctor.result, toks, names);
                    proof {
                        lemma_walk_view(m2, *names, ctor.result, toks@);
                    }
                    i = i + 1;
                }
                proof {
                    assert(constructors@.take(constructors@.len() as int) == constructors@);
                }
                let ghost n3 = *names;
                match recursor {
                    Some(rec) => {
                        walk_expr(&rec.ty, toks, names);
                        proof {
                            lemma_walk_view(n3, *names, rec.ty, toks@);
                        }
                    },
                    None => {},
                }
                let ghost s4 = view_of(*names);
                proof {
                    assert(iota_rules@.take(0) =~= Seq::<crate::ast::IotaRule>::empty());
                }
                let mut i: usize = 0;
                while i < iota_rules.len()
                    invariant
                        i <= iota_rules@.len(),
                        view_of(*names) == iotas_view(s4, iota_rules@.take(i as int), toks@),
                    decreases iota_rules.len() - i,
                {
                    proof {
                        assert(iota_rules@.take(i as int + 1).drop_last() == iota_rules@.take(i as int));
                        assert(iota_rules@.take(i as int + 1).last() == iota_rules@[i as int]);
                    }
                    let ghost m0 = *names;
                    walk_expr(&iota_rules[i].val, toks, names);
                    proof {
                        lemma_walk_view(m0, *names, iota_rules@[i as int].val, toks@);
                    }
                    i = i + 1;
                }
                proof {
                    assert(iota_rules@.take(iota_rules@.len() as int) == iota_rules@);
                }
            },
            Command::Check { expr, .. } | Command::Reduce { expr, .. } => {
                walk_expr(expr, toks, names);
                proof {
                    lemma_walk_view(nk, *names, *expr, toks@);
                }
            },
            Command::Print { .. } => {},
            // A notation command declares its symbol (coloured like `∀`);
            // its target is a use, resolved by its own declaration.
            Command::Notation { symbol, .. } => {
                names.notations.push(symbol.clone());
                proof {
                    assert(views_of(names.notations@) =~= views_of(nk.notations@).push(symbol@));
                }
            },
            Command::Namespace { .. } | Command::End { .. } | Command::Open { .. } => {},
            Command::OpenIn { .. } | Command::Export { .. } => {},
        }
        proof {
            assert(view_of(*names) == command_view(v0, c, toks@));
        }
        k = k + 1;
    }
    proof {
        assert(file.commands@.take(file.commands@.len() as int) == file.commands@);
    }
}


// ---------------------------------------------------------------------------
// Classification.
// ---------------------------------------------------------------------------

fn classify_universe_base(base: &str, names: &Names) -> (r: SemanticKind)
    ensures
        r == match last_entry(name_table(names.decls@), base@) {
            Some(k) => k,
            None => if has_name(names.ctors@, base@) {
                SemanticKind::CtorUse
            } else {
                SemanticKind::UnknownIdent
            },
        },
{
    match lookup_name(&names.decls, base) {
        Some(kind) => kind,
        None => {
            if contains_name(&names.ctors, base) {
                SemanticKind::CtorUse
            } else {
                SemanticKind::UnknownIdent
            }
        },
    }
}

/// The kind of an identifier token, by the rules in order: a declaration
/// site, `sorry`, a universe application head (`Name.`), a keyword, a
/// sort, a declared name, a constructor, a binder, else unknown.
pub open spec fn ident_kind(text: Seq<char>, offset: usize, v: NamesView) -> SemanticKind {
    let decls = v.0;
    let ctors = v.1;
    let binders = v.4;
    let special = v.5;
    if last_entry(special, offset) is Some {
        last_entry(special, offset)->0
    } else if text == "sorry"@ {
        SemanticKind::Hole
    } else if text.len() > 0 && text.last() == '.' {
        // the base is the text without its trailing dots
        let base = choose|b: Seq<char>| is_trimmed_dots(text, b);
        match last_entry(decls, base) {
            Some(k) => k,
            None => if ctors.contains(base) {
                SemanticKind::CtorUse
            } else {
                SemanticKind::UnknownIdent
            },
        }
    } else if in_table(keyword_list(), text) {
        SemanticKind::Keyword
    } else if in_table(sort_list(), text) {
        SemanticKind::Sort
    } else if last_entry(decls, text) is Some {
        last_entry(decls, text)->0
    } else if ctors.contains(text) {
        SemanticKind::CtorUse
    } else if has_name(binders, text) {
        SemanticKind::Binder
    } else {
        SemanticKind::UnknownIdent
    }
}

/// `b` is `t` with all its trailing dots removed.
pub open spec fn is_trimmed_dots(t: Seq<char>, b: Seq<char>) -> bool {
    &&& b.len() <= t.len()
    &&& t.take(b.len() as int) == b
    &&& forall|i: int| b.len() <= i < t.len() ==> t[i] == '.'
    &&& (b.len() == 0 || b.last() != '.')
}

proof fn lemma_trimmed_dots_unique(t: Seq<char>, b: Seq<char>)
    requires
        is_trimmed_dots(t, b),
    ensures
        (choose|c: Seq<char>| is_trimmed_dots(t, c)) == b,
{
    let c = choose|c: Seq<char>| is_trimmed_dots(t, c);
    assert(is_trimmed_dots(t, c));
    if c.len() < b.len() {
        assert(b[c.len() as int] == t[c.len() as int]);
        if c.len() > 0 {
            assert(c.last() == t[c.len() - 1]);
            assert(b[c.len() - 1] == t[c.len() - 1]);
        }
        assert(b.len() > 0);
        assert(b.last() == t[b.len() - 1]);
        assert(t[b.len() - 1] == '.');
    } else if b.len() < c.len() {
        assert(c.last() == t[c.len() - 1]);
        assert(t[c.len() - 1] == '.');
    }
    assert(c =~= b);
}

fn classify_ident(text: &str, offset: usize, names: &Names) -> (r: SemanticKind)
    ensures
        r == ident_kind(text@, offset, view_of(*names)),
{
    proof {
        lemma_has_name_views(names.ctors@, text@);
    }
    match lookup_offset(&names.special, offset) {
        Some(kind) => {
            return kind;
        },
        None => {},
    }
    if str_eq(text, "sorry") {
        return SemanticKind::Hole;
    }
    if crate::text::ends_with_char(text, '.') {
        let base = trim_trailing_dots(text);
        proof {
            assert(is_trimmed_dots(text@, base@));
            lemma_trimmed_dots_unique(text@, base@);
        }
        proof {
            lemma_has_name_views(names.ctors@, base@);
        }
        return classify_universe_base(base.as_str(), names);
    }
    if table_contains(&keywords(), text) {
        return SemanticKind::Keyword;
    }
    if table_contains(&sorts(), text) {
        return SemanticKind::Sort;
    }
    match lookup_name(&names.decls, text) {
        Some(kind) => {
            return kind;
        },
        None => {},
    }
    if contains_name(&names.ctors, text) {
        return SemanticKind::CtorUse;
    }
    if contains_name(&names.binders, text) {
        return SemanticKind::Binder;
    }
    SemanticKind::UnknownIdent
}

/// The kind of a token by its own text and the names gathered: identifiers
/// by the identifier rules, numbers, holes and `∀` by their class, symbols
/// only where a notation declared them; nothing for anything else.
pub open spec fn token_kind_in(tok: Token, v: NamesView) -> Option<SemanticKind> {
    match tok.kind {
        TokenKind::Ident(text) => Some(ident_kind(text@, tok.span.start.offset, v)),
        TokenKind::Num(_) => Some(SemanticKind::Number),
        TokenKind::Hole => Some(SemanticKind::Hole),
        TokenKind::Forall => Some(SemanticKind::Keyword),
        TokenKind::Sym(symbol) => spec_notation_kind(v.2, symbol@),
        _ => None,
    }
}

/// The semantic span of a token in a parsed file: none inside a universe
/// application, else the token's span with its kind, where it has one.
pub open spec fn span_in(tok: Token, v: NamesView) -> Option<SemanticSpan> {
    if spec_inside_universe(v.3, tok) {
        None
    } else {
        match token_kind_in(tok, v) {
            Some(kind) => Some(SemanticSpan { span: tok.span, kind }),
            None => None,
        }
    }
}

spec fn spec_token_kind(tok: Token, names: Names) -> Option<SemanticKind> {
    token_kind_in(tok, view_of(names))
}

spec fn spec_classify_token(tok: Token, names: Names) -> Option<SemanticSpan> {
    span_in(tok, view_of(names))
}

/// The semantic span of one token, or `None` where the token is not
/// coloured (punctuation, strings, undeclared symbols, universe levels).
fn classify_token(tok: &Token, names: &Names) -> (r: Option<SemanticSpan>)
    ensures
        r == spec_classify_token(*tok, *names),
{
    if names.inside_universe(tok) {
        return None;
    }
    let kind = match &tok.kind {
        TokenKind::Ident(text) => classify_ident(text.as_str(), tok.span.start.offset, names),
        TokenKind::Num(_) => SemanticKind::Number,
        TokenKind::Hole => SemanticKind::Hole,
        TokenKind::Forall => SemanticKind::Keyword,
        TokenKind::Sym(symbol) => match names.notation_kind(symbol.as_str()) {
            Some(kind) => kind,
            None => {
                return None;
            },
        },
        _ => {
            return None;
        },
    };
    Some(SemanticSpan { span: tok.span, kind })
}

/// Drop every span that starts before the previous kept one ends.
fn dedup_overlaps(spans: Vec<SemanticSpan>) -> (r: Vec<SemanticSpan>)
    requires
        forall|i: int| 0 <= i < spans@.len() ==> (#[trigger] spans@[i]).span.start.offset <= spans@[i].span.end.offset,
    ensures
        spans_ordered(r@),
        spans_ordered(spans@) ==> r@ == spans@,
{
    let mut kept: Vec<SemanticSpan> = Vec::new();
    let mut i: usize = 0;
    while i < spans.len()
        invariant
            i <= spans@.len(),
            forall|q: int| 0 <= q < spans@.len() ==> (#[trigger] spans@[q]).span.start.offset <= spans@[q].span.end.offset,
            spans_ordered(kept@),
            spans_ordered(spans@) ==> kept@ == spans@.take(i as int),
        decreases spans.len() - i,
    {
        let s = spans[i];
        let skip = kept.len() > 0 && s.span.start.offset < kept[kept.len() - 1].span.end.offset;
        if !skip {
            proof {
                if kept@.len() > 0 {
                    assert forall|a: int, b: int| 0 <= a < b < kept@.len() + 1 implies (#[trigger] kept@.push(s)[a]).span.end.offset
                        <= (#[trigger] kept@.push(s)[b]).span.start.offset by {
                        if b == kept@.len() {
                            assert(kept@[a].span.end.offset <= kept@[kept@.len() - 1].span.end.offset);
                        }
                    };
                }
                if spans_ordered(spans@) {
                    assert(spans@.take(i as int + 1) == spans@.take(i as int).push(s));
                }
            }
            kept.push(s);
        } else {
            proof {
                if spans_ordered(spans@) {
                    assert(kept@[kept@.len() - 1] == spans@[i as int - 1]);
                    assert(false);
                }
            }
        }
        i = i + 1;
    }
    proof {
        if spans_ordered(spans@) {
            assert(spans@.take(spans@.len() as int) == spans@);
        }
    }
    kept
}

/// The semantic spans of the tokens, in their order: each token's own span,
/// where it has one.
pub open spec fn classified_in(toks: Seq<Token>, v: NamesView) -> Seq<SemanticSpan>
    decreases toks.len(),
{
    if toks.len() == 0 {
        Seq::empty()
    } else {
        let before = classified_in(toks.drop_last(), v);
        match span_in(toks.last(), v) {
            Some(s) => before.push(s),
            None => before,
        }
    }
}

/// Classify ordered tokens into ordered, non-overlapping semantic spans.
fn classify(toks: &Vec<Token>, names: &Names) -> (r: Vec<SemanticSpan>)
    requires
        ordered(toks@),
    ensures
        r@ == classified_in(toks@, view_of(*names)),
        spans_ordered(r@),
        forall|i: int| 0 <= i < r@.len() ==> exists|j: int| 0 <= j < toks@.len() && (#[trigger] r@[i]).span == toks@[j].span,
{
    let mut out: Vec<SemanticSpan> = Vec::new();
    let ghost mut from: Seq<int> = Seq::empty();
    let mut k: usize = 0;
    while k < toks.len()
        invariant
            ordered(toks@),
            k <= toks@.len(),
            from.len() == out@.len(),
            out@ == classified_in(toks@.take(k as int), view_of(*names)),
            forall|i: int| 0 <= i < out@.len() ==> 0 <= #[trigger] from[i] < k && out@[i].span == toks@[from[i]].span,
            forall|i: int, j: int| 0 <= i < j < out@.len() ==> #[trigger] from[i] < #[trigger] from[j],
        decreases toks.len() - k,
    {
        proof {
            assert(toks@.take(k as int + 1).drop_last() == toks@.take(k as int));
            assert(toks@.take(k as int + 1).last() == toks@[k as int]);
        }
        match classify_token(&toks[k], names) {
            Some(s) => {
                out.push(s);
                proof {
                    from = from.push(k as int);
                }
            },
            None => {},
        }
        k = k + 1;
    }
    // The tokens come in source order, so the stable sort by start offset
    // leaves `out` as it is.
    proof {
        assert forall|a: int, b: int| 0 <= a < b < out@.len() implies (#[trigger] out@[a]).span.end.offset
            <= (#[trigger] out@[b]).span.start.offset by {
            assert(from[a] < from[b]);
            assert(toks@[from[a]].span.end.offset <= toks@[from[b]].span.start.offset);
        };
        assert forall|a: int| 0 <= a < out@.len() implies (#[trigger] out@[a]).span.start.offset
            <= out@[a].span.end.offset by {
            assert(toks@[from[a]].span.start.offset <= toks@[from[a]].span.end.offset);
        };
        assert forall|i: int| 0 <= i < out@.len() implies exists|j: int| 0 <= j < toks@.len() && (#[trigger] out@[i]).span == toks@[j].span by {
            assert(out@[i].span == toks@[from[i]].span);
        };
        assert(toks@.take(toks@.len() as int) == toks@);
    }
    dedup_overlaps(out)
}

/// The tokens of `src` without the end marker; on a lexing error, the
/// clean prefix before the error (lexed again up to the error offset).
fn lex_prefix(src: &str) -> (r: Vec<Token>)
    ensures
        ordered(r@),
        lex_ok(src@, 0, file_symbols(src@, Seq::empty())) ==> tok_views(r@) == lex_tokens(
            src@,
            0,
            file_symbols(src@, Seq::empty()),
        ).drop_last(),
{
    match tokenize(src) {
        Ok(toks) => {
            let ghost all = toks@;
            let r = without_end(toks);
            proof {
                assert(tok_views(r@) =~= tok_views(all).drop_last());
            }
            r
        },
        Err(diag) => {
            let n = src.len();
            let cut = if diag.span.start.offset < n {
                diag.span.start.offset
            } else {
                n
            };
            if !src.is_char_boundary(cut) {
                return Vec::new();
            }
            let (head, _) = src.split_at(cut);
            match tokenize(head) {
                Ok(toks) => without_end(toks),
                Err(_) => Vec::new(),
            }
        },
    }
}

/// A lexed stream without its end marker.
fn without_end(toks: Vec<Token>) -> (r: Vec<Token>)
    requires
        lexed(toks@),
    ensures
        ordered(r@),
        r@ == toks@.drop_last(),
{
    let mut toks = toks;
    let _ = toks.pop();
    toks
}

/// The semantic tokens of `src`: lexing, parsing and name resolution, each
/// degrading gracefully (parse error: lexical classification only).
pub fn semantic_tokens(src: &str) -> (r: Vec<SemanticSpan>)
    ensures
        spans_ordered(r@),
        exists|toks: Seq<Token>, file: Option<FolFile>|
            ordered(toks) && (file matches Some(f) ==> f.src@ == src@) && (!lex_ok(
                src@,
                0,
                file_symbols(src@, Seq::empty()),
            ) ==> file is None) && (lex_ok(src@, 0, file_symbols(src@, Seq::empty())) ==> tok_views(toks)
                == lex_tokens(src@, 0, file_symbols(src@, Seq::empty())).drop_last()) && r@ == #[trigger] classified_in(
                toks,
                file_names(toks, file),
            ),
{
    let toks = lex_prefix(src);
    let r = match parse(src) {
        Ok(file) => semantic_tokens_of(&toks, Some(&file)),
        Err(_) => semantic_tokens_of(&toks, None),
    };
    r
}

/// No names at all.
pub open spec fn no_names() -> NamesView {
    (Seq::empty(), Seq::empty(), Seq::empty(), Seq::empty(), Seq::empty(), Seq::empty())
}

/// The names a file gives its tokens: those its commands declare and bind;
/// none without a parsed file.
pub open spec fn file_names(toks: Seq<Token>, file: Option<FolFile>) -> NamesView {
    match file {
        Some(f) => collected_view(no_names(), f.commands@, toks),
        None => no_names(),
    }
}

/// The semantic tokens of lexed `toks`, with the names of `file` (its
/// parse, when there is one; lexical classification only without).
pub fn semantic_tokens_of(toks: &Vec<Token>, file: Option<&FolFile>) -> (r: Vec<SemanticSpan>)
    requires
        ordered(toks@),
    ensures
        spans_ordered(r@),
        r@ == classified_in(
            toks@,
            file_names(
                toks@,
                match file {
                    Some(f) => Some(*f),
                    None => None,
                },
            ),
        ),
{
    let mut names = Names::new();
    proof {
        assert(view_of(names) =~= no_names());
    }
    match file {
        Some(f) => {
            collect_names(f, toks, &mut names);
        },
        None => {},
    }
    classify(toks, &names)
}


// ---------------------------------------------------------------------------
// Runs: classifying a free-standing text (a rendered goal or hypothesis).
// ---------------------------------------------------------------------------

/// The characters `chars[a..b]` as a string.
fn chars_text(chars: &Vec<char>, a: usize, b: usize) -> (r: String)
    requires
        a <= b <= chars@.len(),
    ensures
        r@ == chars@.subrange(a as int, b as int),
{
    string_from_chars(vstd::slice::slice_subrange(chars.as_slice(), a, b))
}

/// Walk forward from character `ci` (at byte offset `byte`) until the byte
/// offset reaches `target` or the text ends; the new character index and
/// byte offset.
fn advance_to(chars: &Vec<char>, ci: usize, byte: usize, target: usize) -> (r: (usize, usize))
    requires
        ci <= chars@.len(),
    ensures
        ci <= r.0 <= chars@.len(),
        byte == spec_utf8_len_seq(chars@.take(ci as int)) && spec_utf8_len_seq(chars@) <= isize::MAX ==> r.0
            == char_reach(chars@, ci as int, target as int) && r.1 == spec_utf8_len_seq(chars@.take(r.0 as int)),
{
    let mut i = ci;
    let mut b = byte;
    while i < chars.len() && b < target
        invariant
            ci <= i <= chars@.len(),
            byte == spec_utf8_len_seq(chars@.take(ci as int)) && spec_utf8_len_seq(chars@) <= isize::MAX ==> b
                == spec_utf8_len_seq(chars@.take(i as int)) && char_reach(chars@, i as int, target as int)
                == char_reach(chars@, ci as int, target as int),
        decreases chars.len() - i,
    {
        proof {
            crate::text::lemma_utf8_len_prefix(chars@, i as int);
        }
        b = b.saturating_add(utf8_len(chars[i]));
        i = i + 1;
    }
    (i, b)
}

/// The first character index from `ci` on at or after byte `target` (the
/// length when the text ends first).
pub open spec fn char_reach(chars: Seq<char>, ci: int, target: int) -> int
    decreases chars.len() - ci,
{
    if ci < 0 || ci >= chars.len() || spec_utf8_len_seq(chars.take(ci)) >= target {
        ci
    } else {
        char_reach(chars, ci + 1, target)
    }
}

/// The kind of a lexed token with the names `v`: identifiers by the
/// identifier rules (at the token's offset), numbers, holes and `∀` by
/// their class, symbols where a notation declared them.
pub open spec fn lexed_kind(k: LexKind, start: int, v: NamesView) -> Option<SemanticKind> {
    match k {
        LexKind::Ident(t) => Some(ident_kind(t, start as usize, v)),
        LexKind::Num(_) => Some(SemanticKind::Number),
        LexKind::Hole => Some(SemanticKind::Hole),
        LexKind::Forall => Some(SemanticKind::Keyword),
        LexKind::Sym(sym) => spec_notation_kind(v.2, sym),
        _ => None,
    }
}

proof fn lemma_lexed_kind(tok: Token, v: NamesView)
    ensures
        token_kind_in(tok, v) == lexed_kind(tok_view(tok).0, tok_view(tok).1, v),
{
}

/// The names a free-standing text is classified with: the given
/// declarations and binders, nothing else.
pub open spec fn text_names(decls: Seq<(String, SemanticKind)>, binders: Seq<String>) -> NamesView {
    (name_table(decls), Seq::empty(), Seq::empty(), Seq::empty(), binders, Seq::empty())
}

/// The names of the hypotheses.
pub open spec fn hypothesis_names(binders: Seq<(String, String)>) -> Seq<String> {
    binders.map_values(|b: (String, String)| b.0)
}

/// The runs of `chars` from token `k` on (character index `ci` reached):
/// the text before each token as a plain run (where there is any), the
/// token's text with its kind, and the rest of the text as a plain run.
pub open spec fn run_views(
    chars: Seq<char>,
    t: Seq<(LexKind, int, int)>,
    v: NamesView,
    k: int,
    ci: int,
) -> Seq<(Seq<char>, Option<SemanticKind>)>
    decreases t.len() - k,
{
    if k < 0 || k + 1 >= t.len() {
        if ci < chars.len() {
            seq![(chars.subrange(ci, chars.len() as int), None::<SemanticKind>)]
        } else {
            Seq::empty()
        }
    } else {
        let cj = char_reach(chars, ci, t[k].1);
        let ck = char_reach(chars, cj, t[k].2);
        let gap = if cj > ci {
            seq![(chars.subrange(ci, cj), None::<SemanticKind>)]
        } else {
            Seq::empty()
        };
        gap + seq![(chars.subrange(cj, ck), lexed_kind(t[k].0, t[k].1, v))] + run_views(chars, t, v, k + 1, ck)
    }
}

pub open spec fn runs_view(r: Seq<Run>) -> Seq<(Seq<char>, Option<SemanticKind>)> {
    r.map_values(|x: Run| (x.text@, x.kind))
}

/// The kind of a token in a free-standing text.
fn token_kind(tok: &Token, names: &Names) -> (r: Option<SemanticKind>)
    ensures
        r == spec_token_kind(*tok, *names),
{
    match &tok.kind {
        TokenKind::Ident(name) => Some(classify_ident(name.as_str(), tok.span.start.offset, names)),
        TokenKind::Num(_) => Some(SemanticKind::Number),
        TokenKind::Hole => Some(SemanticKind::Hole),
        TokenKind::Forall => Some(SemanticKind::Keyword),
        TokenKind::Sym(symbol) => names.notation_kind(symbol.as_str()),
        _ => None,
    }
}

proof fn lemma_subrange_join(s: Seq<char>, a: int, b: int, c: int)
    requires
        0 <= a <= b <= c <= s.len(),
    ensures
        s.subrange(0, a) + s.subrange(a, b) == s.subrange(0, b),
        s.subrange(0, b) + s.subrange(b, c) == s.subrange(0, c),
{
    assert(s.subrange(0, a) + s.subrange(a, b) =~= s.subrange(0, b));
    assert(s.subrange(0, b) + s.subrange(b, c) =~= s.subrange(0, c));
}

/// Classify an arbitrary expression text into renderable runs, by the same
/// rules as the editor's semantic tokens. `decls` are the visible
/// declarations, `binders` the names in scope. A lexing failure gives one
/// plain run. The runs' texts, concatenated, give back `text` exactly.
pub fn tag_runs(text: &str, decls: &[(String, SemanticKind)], binders: &[String]) -> (r: Vec<Run>)
    ensures
        runs_text(r@) == text@,
        !lex_ok(text@, 0, file_symbols(text@, Seq::empty())) ==> r@.len() == 1 && r@[0].text@ == text@
            && r@[0].kind is None,
        lex_ok(text@, 0, file_symbols(text@, Seq::empty())) ==> runs_view(r@) == run_views(
            text@,
            lex_tokens(text@, 0, file_symbols(text@, Seq::empty())),
            text_names(decls@, binders@),
            0,
            0,
        ),
{
    let mut names = Names::new();
    let mut i: usize = 0;
    proof {
        assert(name_table(names.decls@) =~= name_table(decls@.take(0)));
    }
    while i < decls.len()
        invariant
            i <= decls@.len(),
            name_table(names.decls@) == name_table(decls@.take(i as int)),
            names.ctors@.len() == 0,
            names.binders@.len() == 0,
            names.special@.len() == 0,
            names.universes@.len() == 0,
            names.notations@.len() == 0,
        decreases decls.len() - i,
    {
        let ghost before = names.decls@;
        names.decls.push((decls[i].0.clone(), decls[i].1));
        proof {
            assert(name_table(names.decls@) =~= name_table(before).push((decls@[i as int].0@, decls@[i as int].1)));
            assert(name_table(decls@.take(i + 1)) =~= name_table(decls@.take(i as int)).push(
                (decls@[i as int].0@, decls@[i as int].1),
            ));
        }
        i = i + 1;
    }
    proof {
        assert(decls@.take(decls@.len() as int) =~= decls@);
        assert(names.binders@ =~= binders@.take(0));
    }
    let mut i: usize = 0;
    while i < binders.len()
        invariant
            i <= binders@.len(),
            names.binders@ == binders@.take(i as int),
            name_table(names.decls@) == name_table(decls@),
            names.ctors@.len() == 0,
            names.special@.len() == 0,
            names.universes@.len() == 0,
            names.notations@.len() == 0,
        decreases binders.len() - i,
    {
        names.binders.push(binders[i].clone());
        proof {
            assert(names.binders@ =~= binders@.take(i + 1));
        }
        i = i + 1;
    }
    let ghost v = text_names(decls@, binders@);
    proof {
        assert(binders@.take(binders@.len() as int) =~= binders@);
        assert(views_of(names.ctors@) =~= Seq::<Seq<char>>::empty());
        assert(views_of(names.notations@) =~= Seq::<Seq<char>>::empty());
        assert(names.special@ =~= Seq::<(usize, SemanticKind)>::empty());
        assert(names.universes@ =~= Seq::<Span>::empty());
        assert(view_of(names) == v);
    }
    let toks = match tokenize(text) {
        Ok(toks) => toks,
        Err(_) => {
            let run = Run { text: String::from_str(text), kind: None };
            let runs = vec![run];
            proof {
                assert(runs@.drop_last() =~= Seq::<Run>::empty());
                assert(runs_text(runs@.drop_last()) == Seq::<char>::empty());
                assert(Seq::<char>::empty() + text@ =~= text@);
            }
            return runs;
        },
    };
    let chars = chars_of(text);
    let mut runs: Vec<Run> = Vec::new();
    let mut ci: usize = 0;
    let mut byte: usize = 0;
    let mut k: usize = 0;
    let ghost tv = tok_views(toks@);
    proof {
        assert(chars@.subrange(0, 0) =~= runs_text(runs@));
        assert(chars@.take(0) =~= Seq::<char>::empty());
        assert(runs_view(runs@) =~= Seq::<(Seq<char>, Option<SemanticKind>)>::empty());
    }
    while k < toks.len() - 1
        invariant
            toks@.len() > 0,
            chars@ == text@,
            ci <= chars@.len(),
            runs_text(runs@) == chars@.subrange(0, ci as int),
            tv == tok_views(toks@),
            view_of(names) == v,
            spec_utf8_len_seq(chars@) <= isize::MAX,
            byte == spec_utf8_len_seq(chars@.take(ci as int)),
            runs_view(runs@) + run_views(chars@, tv, v, k as int, ci as int) == run_views(chars@, tv, v, 0, 0),
        decreases toks.len() - k,
    {
        let tok = &toks[k];
        let ghost r0 = runs_view(runs@);
        let ghost ci0 = ci as int;
        proof {
            assert(tv[k as int] == tok_view(*tok));
            lemma_lexed_kind(*tok, v);
        }
        let (cj, bj) = advance_to(&chars, ci, byte, tok.span.start.offset);
        if cj > ci {
            let gap = Run { text: chars_text(&chars, ci, cj), kind: None };
            proof {
                lemma_runs_text_push(runs@, gap);
                lemma_subrange_join(chars@, ci as int, cj as int, cj as int);
            }
            runs.push(gap);
        } else {
            proof {
                assert(ci == cj);
            }
        }
        let (ck, bk) = advance_to(&chars, cj, bj, tok.span.end.offset);
        let kind = token_kind(tok, &names);
        let run = Run { text: chars_text(&chars, cj, ck), kind };
        proof {
            lemma_runs_text_push(runs@, run);
            lemma_subrange_join(chars@, cj as int, ck as int, ck as int);
        }
        runs.push(run);
        proof {
            let gapv = if cj as int > ci0 {
                seq![(chars@.subrange(ci0, cj as int), None::<SemanticKind>)]
            } else {
                Seq::empty()
            };
            assert(runs_view(runs@) =~= r0 + gapv + seq![(chars@.subrange(cj as int, ck as int), lexed_kind(tv[k as int].0, tv[k as int].1, v))]);
            assert(run_views(chars@, tv, v, k as int, ci0) == gapv + seq![(chars@.subrange(cj as int, ck as int), lexed_kind(tv[k as int].0, tv[k as int].1, v))] + run_views(chars@, tv, v, k + 1, ck as int));
        }
        ci = ck;
        byte = bk;
        k = k + 1;
    }
    let ghost r0 = runs_view(runs@);
    if ci < chars.len() {
        let rest = Run { text: chars_text(&chars, ci, chars.len()), kind: None };
        proof {
            lemma_runs_text_push(runs@, rest);
            lemma_subrange_join(chars@, ci as int, chars@.len() as int, chars@.len() as int);
        }
        runs.push(rest);
        proof {
            assert(runs_view(runs@) =~= r0 + seq![(chars@.subrange(ci as int, chars@.len() as int), None::<SemanticKind>)]);
        }
    } else {
        proof {
            assert(r0 + Seq::<(Seq<char>, Option<SemanticKind>)>::empty() =~= r0);
        }
    }
    proof {
        assert(chars@.subrange(0, chars@.len() as int) =~= chars@);
    }
    runs
}

/// The declaration table of a commands sequence: each declared name with
/// its use kind; an inductive's constructors under both their source and
/// their canonical names.
pub open spec fn ctor_kinds(ind: Seq<char>, ctors: Seq<crate::ast::CtorDecl>) -> Seq<
    (Seq<char>, SemanticKind),
>
    decreases ctors.len(),
{
    if ctors.len() == 0 {
        Seq::empty()
    } else {
        let c = ctors.last().name@;
        let canonical = spec_canonical_ctor_name(ind, c);
        ctor_kinds(ind, ctors.drop_last()) + seq![(c, SemanticKind::CtorUse)] + if canonical != c {
            seq![(canonical, SemanticKind::CtorUse)]
        } else {
            Seq::empty()
        }
    }
}

pub open spec fn command_kinds(c: Command) -> Seq<(Seq<char>, SemanticKind)> {
    match c {
        Command::Def { name, .. } => seq![(name@, SemanticKind::DefUse)],
        Command::Theorem { name, .. } => seq![(name@, SemanticKind::TheoremUse)],
        Command::Axiom { name, .. } => seq![(name@, SemanticKind::AxiomUse)],
        Command::InductiveBlock { name, constructors, .. } => seq![
            (name@, SemanticKind::InductiveUse),
        ] + ctor_kinds(name@, constructors@),
        _ => Seq::empty(),
    }
}

pub open spec fn declared_kinds(cmds: Seq<Command>) -> Seq<(Seq<char>, SemanticKind)>
    decreases cmds.len(),
{
    if cmds.len() == 0 {
        Seq::empty()
    } else {
        declared_kinds(cmds.drop_last()) + command_kinds(crate::ast::innermost(cmds.last()))
    }
}

/// The declaration table of a parsed file.
pub fn file_declaration_kinds(file: &FolFile) -> (r: Vec<(String, SemanticKind)>)
    ensures
        name_table(r@) == declared_kinds(file.commands@),
{
    let cmds = effective_commands(file);
    let mut out: Vec<(String, SemanticKind)> = Vec::new();
    let mut k: usize = 0;
    while k < cmds.len()
        invariant
            k <= cmds@.len(),
            cmds@.len() == file.commands@.len(),
            forall|i: int| 0 <= i < cmds@.len() ==> *(#[trigger] cmds@[i]) == crate::ast::innermost(file.commands@[i]),
            name_table(out@) == declared_kinds(file.commands@.take(k as int)),
        decreases cmds.len() - k,
    {
        let ghost before = out@;
        proof {
            assert(file.commands@.take(k as int + 1).drop_last() == file.commands@.take(k as int));
            assert(file.commands@.take(k as int + 1).last() == file.commands@[k as int]);
        }
        match cmds[k] {
            Command::Def { name, .. } => out.push((name.clone(), SemanticKind::DefUse)),
            Command::Theorem { name, .. } => out.push((name.clone(), SemanticKind::TheoremUse)),
            Command::Axiom { name, .. } => out.push((name.clone(), SemanticKind::AxiomUse)),
            Command::InductiveBlock { name, constructors, .. } => {
                out.push((name.clone(), SemanticKind::InductiveUse));
                let ghost base = out@;
                let mut i: usize = 0;
                while i < constructors.len()
                    invariant
                        i <= constructors@.len(),
                        name_table(out@) == name_table(base) + ctor_kinds(name@, constructors@.take(i as int)),
                    decreases constructors.len() - i,
                {
                    proof {
                        assert(constructors@.take(i as int + 1).drop_last() == constructors@.take(i as int));
                        assert(constructors@.take(i as int + 1).last() == constructors@[i as int]);
                    }
                    let ctor_name = &constructors[i].name;
                    let canonical = canonical_ctor_name(name.as_str(), ctor_name.as_str());
                    let ghost prev = out@;
                    let ghost step = ctor_kinds(name@, constructors@.take(i as int + 1));
                    let ghost c = ctor_name@;
                    let ghost cn = spec_canonical_ctor_name(name@, c);
                    proof {
                        assert(step == ctor_kinds(name@, constructors@.take(i as int)) + seq![
                            (c, SemanticKind::CtorUse),
                        ] + if cn != c {
                            seq![(cn, SemanticKind::CtorUse)]
                        } else {
                            Seq::empty()
                        });
                    }
                    out.push((ctor_name.clone(), SemanticKind::CtorUse));
                    proof {
                        assert(name_table(out@) =~= name_table(prev).push((c, SemanticKind::CtorUse)));
                    }
                    if !str_eq(canonical.as_str(), ctor_name.as_str()) {
                        let ghost mid = out@;
                        out.push((canonical, SemanticKind::CtorUse));
                        proof {
                            assert(name_table(out@) =~= name_table(mid).push((cn, SemanticKind::CtorUse)));
                            assert(name_table(out@) =~= name_table(base) + step);
                        }
                    } else {
                        proof {
                            assert(name_table(out@) =~= name_table(base) + step);
                        }
                    }
                    i = i + 1;
                }
                proof {
                    assert(constructors@.take(constructors@.len() as int) == constructors@);
                }
            },
            _ => {},
        }
        proof {
            assert(name_table(out@) =~= name_table(before) + command_kinds(*cmds@[k as int]));
        }
        k = k + 1;
    }
    proof {
        assert(file.commands@.take(file.commands@.len() as int) == file.commands@);
    }
    out
}

/// The declaration-name table of `src` (name to use kind, constructors as
/// constructor uses); empty when `src` does not parse.
pub fn declaration_kinds(src: &str) -> (r: Vec<(String, SemanticKind)>)
    ensures
        exists|file: Option<FolFile>|
            #[trigger] declarations_of(file, src@) == name_table(r@),
{
    match parse(src) {
        Ok(file) => {
            let r = file_declaration_kinds(&file);
            proof {
                assert(declarations_of(Some(file), src@) == name_table(r@));
            }
            r
        },
        Err(_) => {
            let r: Vec<(String, SemanticKind)> = Vec::new();
            proof {
                assert(name_table(r@) =~= Seq::<(Seq<char>, SemanticKind)>::empty());
                assert(declarations_of(None, src@) == name_table(r@));
            }
            r
        },
    }
}

/// The declaration table of `file`, a parse of `src`; empty without one.
pub open spec fn declarations_of(file: Option<FolFile>, src: Seq<char>) -> Seq<(Seq<char>, SemanticKind)> {
    match file {
        Some(f) => if f.src@ == src {
            declared_kinds(f.commands@)
        } else {
            Seq::empty()
        },
        None => Seq::empty(),
    }
}

/// [`tag_runs`] with the declaration table pulled from `file_src`.
pub fn tag_expr(text: &str, file_src: &str, binders: &[String]) -> (r: Vec<Run>)
    ensures
        runs_text(r@) == text@,
{
    let decls = declaration_kinds(file_src);
    tag_runs(text, decls.as_slice(), binders)
}

/// [`goal_text`] tagged with [`tag_runs`], the hypothesis names as the
/// binders in scope; the turnstile is a plain run. The runs' texts give
/// back [`goal_text`] exactly.
pub fn goal_runs(binders: &[(String, String)], goal: &str, decls: &[(String, SemanticKind)]) -> (r:
    Vec<Run>)
    ensures
        runs_text(r@) == spec_goal_text(binders@, goal@),
        exists|k: int|
            0 <= k < r@.len() && (#[trigger] r@[k]).text@ == "⊢ "@ && r@[k].kind is None && runs_text(
                r@.take(k),
            ) == hypotheses_text(binders@) && runs_text(r@.skip(k + 1)) == goal@ && (lex_ok(
                hypotheses_text(binders@),
                0,
                file_symbols(hypotheses_text(binders@), Seq::empty()),
            ) ==> runs_view(r@.take(k)) == run_views(
                hypotheses_text(binders@),
                lex_tokens(hypotheses_text(binders@), 0, file_symbols(hypotheses_text(binders@), Seq::empty())),
                text_names(decls@, hypothesis_names(binders@)),
                0,
                0,
            )) && (lex_ok(goal@, 0, file_symbols(goal@, Seq::empty())) ==> runs_view(r@.skip(k + 1)) == run_views(
                goal@,
                lex_tokens(goal@, 0, file_symbols(goal@, Seq::empty())),
                text_names(decls@, hypothesis_names(binders@)),
                0,
                0,
            )),
{
    let mut names: Vec<String> = Vec::new();
    let mut i: usize = 0;
    while i < binders.len()
        invariant
            i <= binders@.len(),
            names@ == hypothesis_names(binders@.take(i as int)),
        decreases binders.len() - i,
    {
        names.push(binders[i].0.clone());
        proof {
            assert(hypothesis_names(binders@.take(i + 1)) =~= hypothesis_names(binders@.take(i as int)).push(
                binders@[i as int].0,
            ));
        }
        i = i + 1;
    }
    proof {
        assert(binders@.take(binders@.len() as int) =~= binders@);
    }
    let hyps = hypotheses_string(binders);
    let mut runs = tag_runs(hyps.as_str(), decls, names.as_slice());
    let turnstile = Run { text: String::from_str("⊢ "), kind: None };
    proof {
        lemma_runs_text_push(runs@, turnstile);
    }
    let ghost hyps_runs = runs@;
    runs.push(turnstile);
    proof {
        assert(runs@.drop_last() =~= hyps_runs);
    }
    let ghost head = runs@;
    let goal_part = tag_runs(goal, decls, names.as_slice());
    proof {
        lemma_runs_text_concat(runs@, goal_part@);
    }
    let ghost tail = goal_part@;
    let mut goal_part = goal_part;
    runs.append(&mut goal_part);
    proof {
        let k = head.len() - 1;
        assert(runs@.take(k) =~= head.drop_last());
        assert(runs@.skip(k + 1) =~= tail);
        assert(runs_view(runs@.take(k)) =~= runs_view(hyps_runs));
        assert(runs_view(runs@.skip(k + 1)) =~= runs_view(tail));
        assert(runs@[k] == head[k]);
    }
    runs
}

} // verus!
