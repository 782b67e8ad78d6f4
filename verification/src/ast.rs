//! The syntax tree that the parser builds: commands and expressions.
use crate::draft::{
    binders_alike, rendered_atom, rendered_binder_notation, rendered_fun, lemma_binders_alike, lemma_cases_arms_alike, lemma_exprs_alike,
    lemma_match_arms_alike, lemma_patterns_alike, lemma_tactics_alike, needs_parens_as_atom,
    needs_parens_as_fun, pattern_needs_parens, rendered_binder, rendered_binders, rendered_cases_arm,
    rendered_cases_arms, rendered_expr, rendered_list, rendered_match_arm, rendered_match_arms,
    rendered_pattern, rendered_pattern_args, rendered_spine, rendered_tactic, rendered_tactics,
};
use crate::span::Span;
use vstd::prelude::*;

verus! {

/// How a notation symbol takes its operands.
#[derive(Debug, Clone, Copy, PartialEq, Eq, Structural)]
pub enum NotationAssoc {
    Infix,
    Infixl,
    Infixr,
    Prefix,
    Postfix,
    Nullary,
    Binder,
}

impl NotationAssoc {
    pub open spec fn spec_is_binary(self) -> bool {
        self is Infix || self is Infixl || self is Infixr
    }

    /// Whether the symbol stands between two operands.
    pub fn is_binary(&self) -> (r: bool)
        ensures
            r == self.spec_is_binary(),
    {
        match self {
            NotationAssoc::Infix | NotationAssoc::Infixl | NotationAssoc::Infixr => true,
            _ => false,
        }
    }
}

/// Explicit `( … )` or implicit `{ … }` binder.
#[derive(Debug, Clone, Copy, PartialEq, Eq, Structural)]
pub enum BinderKind {
    Explicit,
    Implicit,
}

/// A sort: `Prop`, `Type`, `Sort n` or `Sort <level text>`.
#[derive(Debug, Clone, PartialEq, Eq)]
pub enum SortKind {
    Prop,
    Type,
    Sort(u64),
    Level(String),
}

#[derive(Debug, PartialEq)]
pub struct Binder {
    pub name: String,
    pub ty: Option<Box<Expr>>,
    pub style: BinderKind,
    pub span: Span,
}

#[derive(Debug, PartialEq)]
pub enum Pattern {
    Wild { span: Span },
    Ident { name: String, args: Vec<Pattern>, span: Span },
    Num { value: String, span: Span },
}

impl Pattern {
    pub open spec fn spec_span(&self) -> Span {
        match self {
            Pattern::Wild { span } => *span,
            Pattern::Ident { span, .. } => *span,
            Pattern::Num { span, .. } => *span,
        }
    }

    pub fn span(&self) -> (r: Span)
        ensures
            r == self.spec_span(),
    {
        match self {
            Pattern::Wild { span } => *span,
            Pattern::Ident { span, .. } => *span,
            Pattern::Num { span, .. } => *span,
        }
    }
}

#[derive(Debug, PartialEq)]
pub struct MatchArm {
    pub pattern: Pattern,
    pub guard: Option<Expr>,
    pub body: Expr,
    pub span: Span,
}

#[derive(Debug, PartialEq)]
pub struct CasesArm {
    pub ctor: String,
    pub binders: Vec<String>,
    pub tactics: Vec<Tactic>,
    pub span: Span,
}

/// The value of a `have`: a term or a nested tactic block.
#[derive(Debug, PartialEq)]
pub enum HaveValue {
    Term(Expr),
    By(Vec<Tactic>),
}

#[derive(Debug, PartialEq)]
pub enum Tactic {
    Intro { names: Vec<String>, span: Span },
    Exact { expr: Expr, span: Span },
    Apply { expr: Expr, span: Span },
    Assumption { span: Span },
    Rfl { span: Span },
    Constructor { span: Span },
    Left { span: Span },
    Right { span: Span },
    Exfalso { span: Span },
    Have { name: String, ty: Expr, value: HaveValue, span: Span },
    Use { expr: Expr, span: Span },
    Cases { expr: Expr, arms: Vec<CasesArm>, span: Span },
    Sorry { span: Span },
}

impl Tactic {
    pub open spec fn spec_span(&self) -> Span {
        match self {
            Tactic::Intro { span, .. } => *span,
            Tactic::Exact { span, .. } => *span,
            Tactic::Apply { span, .. } => *span,
            Tactic::Assumption { span } => *span,
            Tactic::Rfl { span } => *span,
            Tactic::Constructor { span } => *span,
            Tactic::Left { span } => *span,
            Tactic::Right { span } => *span,
            Tactic::Exfalso { span } => *span,
            Tactic::Have { span, .. } => *span,
            Tactic::Use { span, .. } => *span,
            Tactic::Cases { span, .. } => *span,
            Tactic::Sorry { span } => *span,
        }
    }

    pub fn span(&self) -> (r: Span)
        ensures
            r == self.spec_span(),
    {
        match self {
            Tactic::Intro { span, .. } => *span,
            Tactic::Exact { span, .. } => *span,
            Tactic::Apply { span, .. } => *span,
            Tactic::Assumption { span } => *span,
            Tactic::Rfl { span } => *span,
            Tactic::Constructor { span } => *span,
            Tactic::Left { span } => *span,
            Tactic::Right { span } => *span,
            Tactic::Exfalso { span } => *span,
            Tactic::Have { span, .. } => *span,
            Tactic::Use { span, .. } => *span,
            Tactic::Cases { span, .. } => *span,
            Tactic::Sorry { span } => *span,
        }
    }
}

#[derive(Debug, PartialEq)]
pub enum Expr {
    Ident { name: String, span: Span },
    UniverseApp { name: String, levels: Vec<String>, span: Span },
    Sort { sort: SortKind, span: Span },
    Num { value: String, span: Span },
    Hole { span: Span },
    App { fun: Box<Expr>, arg: Box<Expr>, explicit_spine: bool, span: Span },
    Lambda { binders: Vec<Binder>, body: Box<Expr>, span: Span },
    Forall { binders: Vec<Binder>, body: Box<Expr>, span: Span },
    Arrow { domain: Box<Expr>, codomain: Box<Expr>, span: Span },
    Plus { lhs: Box<Expr>, rhs: Box<Expr>, span: Span },
    Let { binder: Binder, val: Box<Expr>, body: Box<Expr>, span: Span },
    Match { scrutinee: Box<Expr>, arms: Vec<MatchArm>, span: Span },
    By { tactics: Vec<Tactic>, span: Span },
    Notation {
        symbol: String,
        target: String,
        assoc: NotationAssoc,
        lhs: Option<Box<Expr>>,
        rhs: Option<Box<Expr>>,
        alternatives: Vec<String>,
        span: Span,
    },
    SetLiteral { elements: Vec<Expr>, span: Span },
    AnonCtor { elements: Vec<Expr>, span: Span },
}

impl Expr {
    pub open spec fn spec_span(&self) -> Span {
        match self {
            Expr::Ident { span, .. } => *span,
            Expr::UniverseApp { span, .. } => *span,
            Expr::Sort { span, .. } => *span,
            Expr::Num { span, .. } => *span,
            Expr::Hole { span } => *span,
            Expr::App { span, .. } => *span,
            Expr::Lambda { span, .. } => *span,
            Expr::Forall { span, .. } => *span,
            Expr::Arrow { span, .. } => *span,
            Expr::Plus { span, .. } => *span,
            Expr::Let { span, .. } => *span,
            Expr::Match { span, .. } => *span,
            Expr::By { span, .. } => *span,
            Expr::Notation { span, .. } => *span,
            Expr::SetLiteral { span, .. } => *span,
            Expr::AnonCtor { span, .. } => *span,
        }
    }

    pub fn span(&self) -> (r: Span)
        ensures
            r == self.spec_span(),
    {
        match self {
            Expr::Ident { span, .. } => *span,
            Expr::UniverseApp { span, .. } => *span,
            Expr::Sort { span, .. } => *span,
            Expr::Num { span, .. } => *span,
            Expr::Hole { span } => *span,
            Expr::App { span, .. } => *span,
            Expr::Lambda { span, .. } => *span,
            Expr::Forall { span, .. } => *span,
            Expr::Arrow { span, .. } => *span,
            Expr::Plus { span, .. } => *span,
            Expr::Let { span, .. } => *span,
            Expr::Match { span, .. } => *span,
            Expr::By { span, .. } => *span,
            Expr::Notation { span, .. } => *span,
            Expr::SetLiteral { span, .. } => *span,
            Expr::AnonCtor { span, .. } => *span,
        }
    }
}

#[derive(Debug, PartialEq)]
pub struct CtorDecl {
    pub name: String,
    pub binders: Vec<Binder>,
    pub result: Expr,
    pub span: Span,
}

#[derive(Debug, PartialEq)]
pub struct RecDecl {
    pub name: String,
    pub universe: Vec<String>,
    pub ty: Expr,
    pub span: Span,
}

#[derive(Debug, PartialEq)]
pub struct IotaRule {
    pub ctor_name: String,
    pub val: Expr,
    pub span: Span,
}

/// The optional clause of `open`/`export`: at most one of the three is set.
#[derive(Debug, Clone, PartialEq, Default)]
pub struct OpenFilter {
    pub only: Option<Vec<String>>,
    pub hiding: Vec<String>,
    pub renaming: Vec<(String, String)>,
}

impl OpenFilter {
    pub open spec fn spec_is_empty(&self) -> bool {
        self.only is None && self.hiding@.len() == 0 && self.renaming@.len() == 0
    }

    /// The clause-less filter.
    pub fn empty() -> (r: Self)
        ensures
            r.spec_is_empty(),
    {
        OpenFilter { only: None, hiding: Vec::new(), renaming: Vec::new() }
    }

    /// Whether no clause was written.
    pub fn is_empty(&self) -> (r: bool)
        ensures
            r == self.spec_is_empty(),
    {
        self.only.is_none() && self.hiding.len() == 0 && self.renaming.len() == 0
    }
}

/// A notation declared by an imported module (inherited by the importer).
#[derive(Debug, Clone, PartialEq)]
pub struct NotationDecl {
    pub symbol: String,
    pub precedence: Option<u16>,
    pub assoc: NotationAssoc,
    pub target: String,
    pub scope: Option<String>,
    /// Where the notation command stands.
    pub span: Span,
    /// The module that declares it (set when modules are loaded).
    pub module: Option<String>,
}

/// A copy of a notation declaration.
pub fn clone_notation_decl(d: &NotationDecl) -> (r: NotationDecl)
    ensures
        r == *d,
{
    NotationDecl {
        symbol: d.symbol.clone(),
        precedence: d.precedence,
        assoc: d.assoc,
        target: d.target.clone(),
        scope: match &d.scope {
            Some(s) => Some(s.clone()),
            None => None,
        },
        span: d.span,
        module: match &d.module {
            Some(m) => Some(m.clone()),
            None => None,
        },
    }
}

#[derive(Debug, PartialEq)]
pub enum Command {
    Import { module: String, span: Span },
    Def { name: String, universe: Vec<String>, ty: Expr, val: Expr, span: Span },
    Theorem { name: String, universe: Vec<String>, ty: Expr, val: Expr, span: Span },
    Example { ty: Expr, val: Expr, span: Span },
    Axiom { name: String, universe: Vec<String>, ty: Expr, span: Span },
    InductiveBlock {
        name: String,
        params: Vec<Binder>,
        ty: Expr,
        constructors: Vec<CtorDecl>,
        recursor: Option<RecDecl>,
        iota_rules: Vec<IotaRule>,
        span: Span,
    },
    Check { expr: Expr, span: Span },
    Reduce { expr: Expr, span: Span },
    Print { name: String, span: Span },
    Notation {
        symbol: String,
        precedence: Option<u16>,
        assoc: NotationAssoc,
        target: String,
        scope: Option<String>,
        span: Span,
    },
    Namespace { name: String, span: Span },
    End { name: String, span: Span },
    Open { name: String, scoped: bool, filter: OpenFilter, span: Span },
    OpenIn { name: String, filter: OpenFilter, inner: Box<Command>, header: Span, span: Span },
    Export { name: String, filter: OpenFilter, span: Span },
}

impl Command {
    pub open spec fn spec_span(&self) -> Span {
        match self {
            Command::Import { span, .. } => *span,
            Command::Def { span, .. } => *span,
            Command::Theorem { span, .. } => *span,
            Command::Example { span, .. } => *span,
            Command::Axiom { span, .. } => *span,
            Command::InductiveBlock { span, .. } => *span,
            Command::Check { span, .. } => *span,
            Command::Reduce { span, .. } => *span,
            Command::Print { span, .. } => *span,
            Command::Notation { span, .. } => *span,
            Command::Namespace { span, .. } => *span,
            Command::End { span, .. } => *span,
            Command::Open { span, .. } => *span,
            Command::OpenIn { span, .. } => *span,
            Command::Export { span, .. } => *span,
        }
    }

    pub fn span(&self) -> (r: Span)
        ensures
            r == self.spec_span(),
    {
        match self {
            Command::Import { span, .. } => *span,
            Command::Def { span, .. } => *span,
            Command::Theorem { span, .. } => *span,
            Command::Example { span, .. } => *span,
            Command::Axiom { span, .. } => *span,
            Command::InductiveBlock { span, .. } => *span,
            Command::Check { span, .. } => *span,
            Command::Reduce { span, .. } => *span,
            Command::Print { span, .. } => *span,
            Command::Notation { span, .. } => *span,
            Command::Namespace { span, .. } => *span,
            Command::End { span, .. } => *span,
            Command::Open { span, .. } => *span,
            Command::OpenIn { span, .. } => *span,
            Command::Export { span, .. } => *span,
        }
    }

    /// Whether this is an `import` command.
    pub fn is_import(&self) -> (r: bool)
        ensures
            r == (self is Import),
    {
        match self {
            Command::Import { .. } => true,
            _ => false,
        }
    }

    /// The declaration that a notation command makes (`None` for any other
    /// command).
    pub fn notation_decl(&self) -> (r: Option<NotationDecl>)
        ensures
            self matches Command::Notation { symbol, precedence, assoc, target, scope, span } ==> (
            r matches Some(d) && d.symbol == symbol && d.precedence == precedence && d.assoc == assoc
                && d.target == target && d.scope == scope && d.span == span && d.module is None),
            !(self is Notation) ==> r is None,
    {
        match self {
            Command::Notation { symbol, precedence, assoc, target, scope, span } => Some(
                NotationDecl {
                    symbol: symbol.clone(),
                    precedence: *precedence,
                    assoc: *assoc,
                    target: target.clone(),
                    scope: match scope {
                        Some(s) => Some(s.clone()),
                        None => None,
                    },
                    span: *span,
                    module: None,
                },
            ),
            _ => None,
        }
    }

    /// The module that an `import` command names.
    pub fn import_module(&self) -> (r: Option<&str>)
        ensures
            self is Import ==> (r matches Some(m) && m@ == self->Import_module@),
            !(self is Import) ==> r is None,
    {
        match self {
            Command::Import { module, .. } => Some(module.as_str()),
            _ => None,
        }
    }
}

/// A parsed file: its commands in source order, and its text.
#[derive(Debug, PartialEq)]
pub struct FolFile {
    pub commands: Vec<Command>,
    pub src: String,
}

/// The command that `open … in` wrappers (any number of them) stand around.
pub open spec fn innermost(c: Command) -> Command
    decreases c,
{
    match c {
        Command::OpenIn { inner, .. } => innermost(*inner),
        _ => c,
    }
}

fn innermost_of(c: &Command) -> (r: &Command)
    ensures
        *r == innermost(*c),
        !(*r is OpenIn),
    decreases c,
{
    match c {
        Command::OpenIn { inner, .. } => innermost_of(inner),
        _ => c,
    }
}

/// The commands of `file` with each `open … in` wrapper replaced by the
/// command it wraps: what declares names and carries expressions.
pub fn effective_commands(file: &FolFile) -> (r: Vec<&Command>)
    ensures
        r@.len() == file.commands@.len(),
        forall|i: int| 0 <= i < r@.len() ==> *(#[trigger] r@[i]) == innermost(file.commands@[i]),
{
    let mut out: Vec<&Command> = Vec::new();
    let mut i: usize = 0;
    while i < file.commands.len()
        invariant
            i <= file.commands@.len(),
            out@.len() == i,
            forall|j: int| 0 <= j < i ==> *(#[trigger] out@[j]) == innermost(file.commands@[j]),
        decreases file.commands.len() - i,
    {
        out.push(innermost_of(&file.commands[i]));
        i = i + 1;
    }
    out
}


// ---------------------------------------------------------------------------
// Deep copies. `derive(Clone)` is not available on these mutually recursive
// types, so the copies are written out (and their termination is checked).
// A copy renders exactly as its original.
// ---------------------------------------------------------------------------

pub fn clone_strings(v: &Vec<String>) -> (r: Vec<String>)
    ensures
        r@ == v@,
{
    let mut out: Vec<String> = Vec::new();
    let mut i: usize = 0;
    while i < v.len()
        invariant
            i <= v.len(),
            out@ == v@.take(i as int),
        decreases v.len() - i,
    {
        out.push(v[i].clone());
        i = i + 1;
        assert(out@ =~= v@.take(i as int));
    }
    assert(v@.take(v.len() as int) =~= v@);
    out
}

pub(crate) fn clone_binder(b: &Binder) -> (r: Binder)
    ensures
        rendered_binder(r) == rendered_binder(*b),
        r.name == b.name,
        r.ty is Some <==> b.ty is Some,
        r.ty is Some ==> rendered_expr(*r.ty->0) == rendered_expr(*b.ty->0),
    decreases b, 0nat,
{
    let ty = match &b.ty {
        Some(t) => Some(Box::new(clone_expr(t))),
        None => None,
    };
    Binder { name: b.name.clone(), ty, style: b.style, span: b.span }
}

pub fn clone_binders(v: &Vec<Binder>) -> (r: Vec<Binder>)
    ensures
        binders_alike(r@, v@),
        rendered_binders(r@) == rendered_binders(v@),
    decreases v, 1nat,
{
    let mut out: Vec<Binder> = Vec::new();
    let mut i: usize = 0;
    while i < v.len()
        invariant
            i <= v@.len(),
            binders_alike(out@, v@.take(i as int)),
        decreases v.len() - i,
    {
        proof {
            assert(decreases_to!(v => v@));
        }
        out.push(clone_binder(&v[i]));
        i = i + 1;
    }
    proof {
        assert(v@.take(v@.len() as int) =~= v@);
        lemma_binders_alike(out@, v@, Seq::empty());
    }
    out
}

pub(crate) fn clone_pattern(p: &Pattern) -> (r: Pattern)
    ensures
        rendered_pattern(r) == rendered_pattern(*p),
        pattern_needs_parens(r) == pattern_needs_parens(*p),
    decreases p, 0nat,
{
    match p {
        Pattern::Wild { span } => Pattern::Wild { span: *span },
        Pattern::Ident { name, args, span } => Pattern::Ident {
            name: name.clone(),
            args: clone_patterns(args),
            span: *span,
        },
        Pattern::Num { value, span } => Pattern::Num { value: value.clone(), span: *span },
    }
}

pub(crate) fn clone_patterns(v: &Vec<Pattern>) -> (r: Vec<Pattern>)
    ensures
        r@.len() == v@.len(),
        rendered_pattern_args(r@) == rendered_pattern_args(v@),
    decreases v, 1nat,
{
    let mut out: Vec<Pattern> = Vec::new();
    let mut i: usize = 0;
    while i < v.len()
        invariant
            i <= v@.len(),
            out@.len() == i,
            forall|j: int|
                0 <= j < i ==> rendered_pattern(#[trigger] out@[j]) == rendered_pattern(v@[j])
                    && pattern_needs_parens(out@[j]) == pattern_needs_parens(v@[j]),
        decreases v.len() - i,
    {
        proof {
            assert(decreases_to!(v => v@));
        }
        out.push(clone_pattern(&v[i]));
        i = i + 1;
    }
    proof {
        lemma_patterns_alike(out@, v@);
    }
    out
}

pub(crate) fn clone_match_arm(a: &MatchArm) -> (r: MatchArm)
    ensures
        rendered_match_arm(r) == rendered_match_arm(*a),
    decreases a, 0nat,
{
    let guard = match &a.guard {
        Some(g) => Some(clone_expr(g)),
        None => None,
    };
    MatchArm {
        pattern: clone_pattern(&a.pattern),
        guard,
        body: clone_expr(&a.body),
        span: a.span,
    }
}

pub(crate) fn clone_match_arms(v: &Vec<MatchArm>) -> (r: Vec<MatchArm>)
    ensures
        rendered_match_arms(r@) == rendered_match_arms(v@),
    decreases v, 1nat,
{
    let mut out: Vec<MatchArm> = Vec::new();
    let mut i: usize = 0;
    while i < v.len()
        invariant
            i <= v@.len(),
            out@.len() == i,
            forall|j: int| 0 <= j < i ==> rendered_match_arm(#[trigger] out@[j]) == rendered_match_arm(v@[j]),
        decreases v.len() - i,
    {
        proof {
            assert(decreases_to!(v => v@));
        }
        out.push(clone_match_arm(&v[i]));
        i = i + 1;
    }
    proof {
        lemma_match_arms_alike(out@, v@);
    }
    out
}

pub(crate) fn clone_cases_arm(a: &CasesArm) -> (r: CasesArm)
    ensures
        rendered_cases_arm(r) == rendered_cases_arm(*a),
    decreases a, 0nat,
{
    CasesArm {
        ctor: a.ctor.clone(),
        binders: clone_strings(&a.binders),
        tactics: clone_tactics(&a.tactics),
        span: a.span,
    }
}

pub(crate) fn clone_cases_arms(v: &Vec<CasesArm>) -> (r: Vec<CasesArm>)
    ensures
        rendered_cases_arms(r@) == rendered_cases_arms(v@),
    decreases v, 1nat,
{
    let mut out: Vec<CasesArm> = Vec::new();
    let mut i: usize = 0;
    while i < v.len()
        invariant
            i <= v@.len(),
            out@.len() == i,
            forall|j: int| 0 <= j < i ==> rendered_cases_arm(#[trigger] out@[j]) == rendered_cases_arm(v@[j]),
        decreases v.len() - i,
    {
        proof {
            assert(decreases_to!(v => v@));
        }
        out.push(clone_cases_arm(&v[i]));
        i = i + 1;
    }
    proof {
        lemma_cases_arms_alike(out@, v@);
    }
    out
}

pub(crate) fn clone_tactic(t: &Tactic) -> (r: Tactic)
    ensures
        rendered_tactic(r) == rendered_tactic(*t),
    decreases t, 0nat,
{
    match t {
        Tactic::Intro { names, span } => Tactic::Intro { names: clone_strings(names), span: *span },
        Tactic::Exact { expr, span } => Tactic::Exact { expr: clone_expr(expr), span: *span },
        Tactic::Apply { expr, span } => Tactic::Apply { expr: clone_expr(expr), span: *span },
        Tactic::Assumption { span } => Tactic::Assumption { span: *span },
        Tactic::Rfl { span } => Tactic::Rfl { span: *span },
        Tactic::Constructor { span } => Tactic::Constructor { span: *span },
        Tactic::Left { span } => Tactic::Left { span: *span },
        Tactic::Right { span } => Tactic::Right { span: *span },
        Tactic::Exfalso { span } => Tactic::Exfalso { span: *span },
        Tactic::Have { name, ty, value, span } => {
            let value = match value {
                HaveValue::Term(e) => HaveValue::Term(clone_expr(e)),
                HaveValue::By(ts) => HaveValue::By(clone_tactics(ts)),
            };
            Tactic::Have { name: name.clone(), ty: clone_expr(ty), value, span: *span }
        },
        Tactic::Use { expr, span } => Tactic::Use { expr: clone_expr(expr), span: *span },
        Tactic::Cases { expr, arms, span } => Tactic::Cases {
            expr: clone_expr(expr),
            arms: clone_cases_arms(arms),
            span: *span,
        },
        Tactic::Sorry { span } => Tactic::Sorry { span: *span },
    }
}

pub(crate) fn clone_tactics(v: &Vec<Tactic>) -> (r: Vec<Tactic>)
    ensures
        rendered_tactics(r@) == rendered_tactics(v@),
    decreases v, 1nat,
{
    let mut out: Vec<Tactic> = Vec::new();
    let mut i: usize = 0;
    while i < v.len()
        invariant
            i <= v@.len(),
            out@.len() == i,
            forall|j: int| 0 <= j < i ==> rendered_tactic(#[trigger] out@[j]) == rendered_tactic(v@[j]),
        decreases v.len() - i,
    {
        proof {
            assert(decreases_to!(v => v@));
        }
        out.push(clone_tactic(&v[i]));
        i = i + 1;
    }
    proof {
        lemma_tactics_alike(out@, v@);
    }
    out
}

pub(crate) fn clone_exprs(v: &Vec<Expr>) -> (r: Vec<Expr>)
    ensures
        forall|sep: Seq<char>| rendered_list(r@, sep) == rendered_list(v@, sep),
    decreases v, 1nat,
{
    let mut out: Vec<Expr> = Vec::new();
    let mut i: usize = 0;
    while i < v.len()
        invariant
            i <= v@.len(),
            out@.len() == i,
            forall|j: int| 0 <= j < i ==> rendered_expr(#[trigger] out@[j]) == rendered_expr(v@[j]),
        decreases v.len() - i,
    {
        proof {
            assert(decreases_to!(v => v@));
        }
        out.push(clone_expr(&v[i]));
        i = i + 1;
    }
    proof {
        assert forall|sep: Seq<char>| rendered_list(out@, sep) == rendered_list(v@, sep) by {
            lemma_exprs_alike(out@, v@, sep);
        };
    }
    out
}

pub fn clone_sort(s: &SortKind) -> (r: SortKind)
    ensures
        r == *s,
{
    match s {
        SortKind::Prop => SortKind::Prop,
        SortKind::Type => SortKind::Type,
        SortKind::Sort(n) => SortKind::Sort(*n),
        SortKind::Level(t) => SortKind::Level(t.clone()),
    }
}

pub(crate) fn clone_expr(e: &Expr) -> (r: Expr)
    ensures
        rendered_expr(r) == rendered_expr(*e),
        rendered_spine(r) == rendered_spine(*e),
        needs_parens_as_atom(r) == needs_parens_as_atom(*e),
        needs_parens_as_fun(r) == needs_parens_as_fun(*e),
        forall|symbol: Seq<char>| rendered_binder_notation(symbol, r) == rendered_binder_notation(symbol, *e),
    decreases e, 0nat,
{
    let r = match e {
        Expr::Ident { name, span } => Expr::Ident { name: name.clone(), span: *span },
        Expr::UniverseApp { name, levels, span } => Expr::UniverseApp {
            name: name.clone(),
            levels: clone_strings(levels),
            span: *span,
        },
        Expr::Sort { sort, span } => Expr::Sort { sort: clone_sort(sort), span: *span },
        Expr::Num { value, span } => Expr::Num { value: value.clone(), span: *span },
        Expr::Hole { span } => Expr::Hole { span: *span },
        Expr::App { fun, arg, explicit_spine, span } => {
            let f = clone_expr(fun);
            let a = clone_expr(arg);
            proof {
                assert(rendered_fun(f) == rendered_fun(**fun));
                assert(rendered_atom(a) == rendered_atom(**arg));
            }
            Expr::App { fun: Box::new(f), arg: Box::new(a), explicit_spine: *explicit_spine, span: *span }
        },
        Expr::Lambda { binders, body, span } => {
            let bs = clone_binders(binders);
            let b = clone_expr(body);
            proof {
                lemma_binders_alike(bs@, binders@, Seq::empty());
                if bs@.len() == 1 {
                    assert(rendered_binder(bs@[0]) == rendered_binder(binders@[0]));
                }
            }
            Expr::Lambda { binders: bs, body: Box::new(b), span: *span }
        },
        Expr::Forall { binders, body, span } => {
            let bs = clone_binders(binders);
            let b = clone_expr(body);
            proof {
                lemma_binders_alike(bs@, binders@, rendered_expr(b));
            }
            Expr::Forall { binders: bs, body: Box::new(b), span: *span }
        },
        Expr::Arrow { domain, codomain, span } => {
            let d = clone_expr(domain);
            proof {
                assert(rendered_fun(d) == rendered_fun(**domain));
            }
            Expr::Arrow { domain: Box::new(d), codomain: Box::new(clone_expr(codomain)), span: *span }
        },
        Expr::Plus { lhs, rhs, span } => Expr::Plus {
            lhs: Box::new(clone_expr(lhs)),
            rhs: Box::new(clone_expr(rhs)),
            span: *span,
        },
        Expr::Let { binder, val, body, span } => Expr::Let {
            binder: clone_binder(binder),
            val: Box::new(clone_expr(val)),
            body: Box::new(clone_expr(body)),
            span: *span,
        },
        Expr::Match { scrutinee, arms, span } => Expr::Match {
            scrutinee: Box::new(clone_expr(scrutinee)),
            arms: clone_match_arms(arms),
            span: *span,
        },
        Expr::By { tactics, span } => Expr::By { tactics: clone_tactics(tactics), span: *span },
        Expr::Notation { symbol, target, assoc, lhs, rhs, alternatives, span } => {
            let lhs = match lhs {
                Some(l) => {
                    let c = clone_expr(l);
                    proof {
                        assert(rendered_atom(c) == rendered_atom(**l));
                    }
                    Some(Box::new(c))
                },
                None => None,
            };
            let rhs = match rhs {
                Some(x) => {
                    let c = clone_expr(x);
                    proof {
                        assert(rendered_atom(c) == rendered_atom(**x));
                        assert(rendered_binder_notation(symbol@, c) == rendered_binder_notation(symbol@, **x));
                    }
                    Some(Box::new(c))
                },
                None => None,
            };
            Expr::Notation {
                symbol: symbol.clone(),
                target: target.clone(),
                assoc: *assoc,
                lhs,
                rhs,
                alternatives: clone_strings(alternatives),
                span: *span,
            }
        },
        Expr::SetLiteral { elements, span } => {
            let els = clone_exprs(elements);
            proof {
                assert(rendered_list(els@, ", "@) == rendered_list(elements@, ", "@));
            }
            Expr::SetLiteral { elements: els, span: *span }
        },
        Expr::AnonCtor { elements, span } => {
            let els = clone_exprs(elements);
            proof {
                assert(rendered_list(els@, ", "@) == rendered_list(elements@, ", "@));
            }
            Expr::AnonCtor { elements: els, span: *span }
        },
    };
    proof {
        assert(rendered_atom(r) == rendered_atom(*e));
        assert(rendered_fun(r) == rendered_fun(*e));
    }
    r
}

impl Clone for Expr {
    fn clone(&self) -> Self {
        clone_expr(self)
    }
}

impl Clone for Tactic {
    fn clone(&self) -> Self {
        clone_tactic(self)
    }
}

impl Clone for Binder {
    fn clone(&self) -> Self {
        clone_binder(self)
    }
}

impl Clone for Pattern {
    fn clone(&self) -> Self {
        clone_pattern(self)
    }
}

} // verus!
