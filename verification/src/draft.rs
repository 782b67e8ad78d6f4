//! A small tactic-draft state. Tactics add no logic of their own: they
//! build the very lambda term that the kernel will check.
use crate::ast::{
    clone_binder, clone_binders, clone_expr, Binder, BinderKind, CasesArm, Command, Expr,
    HaveValue, MatchArm, NotationAssoc, NotationDecl, Pattern, SortKind, Tactic,
};
use crate::parser::{parse_with_inherited, prec_ok};
use crate::span::{Pos, Span};
use crate::text::{char_string, concat2, concat3, concat4, contains_char, decimal_string, decimal_text};
use vstd::prelude::*;

verus! {

#[derive(Debug, Clone, PartialEq)]
pub enum ProofError {
    Parse(String),
    NotABinder,
    /// No hypothesis closes the goal (as judged by the kernel).
    NoAssumption,
    /// The kernel's expected and actual types.
    Mismatch { expected: String, actual: String },
    /// The term does not elaborate (stable code and message).
    Judge { code: String, message: String },
    NoHole,
}

impl ProofError {
    /// The sentence shown for this error.
    pub fn message(&self) -> (r: String)
        ensures
            self matches ProofError::Parse(m) ==> r@ == m@,
            self is NoHole ==> r@ == "there is no open hole; use `done`"@,
            self is NotABinder ==> r@ == "the current goal is not a function type"@,
            self is NoAssumption ==> r@ == "没有假设能直接结束当前目标（kernel 判定）"@,
            self matches ProofError::Mismatch { expected, actual } ==> r@ == "类型不匹配：期望 `"@ + expected@
                + "`，实际是 `"@ + actual@ + "`"@,
            self matches ProofError::Judge { message, .. } ==> r@ == message@,
    {
        match self {
            ProofError::Parse(msg) => msg.clone(),
            ProofError::NotABinder => String::from_str("the current goal is not a function type"),
            ProofError::NoAssumption => String::from_str(
                "没有假设能直接结束当前目标（kernel 判定）",
            ),
            ProofError::Mismatch { expected, actual } => {
                let head = concat3("类型不匹配：期望 `", expected.as_str(), "`，实际是 `");
                concat3(head.as_str(), actual.as_str(), "`")
            },
            ProofError::Judge { message, .. } => message.clone(),
            ProofError::NoHole => String::from_str("there is no open hole; use `done`"),
        }
    }
}

/// Parse an expression text (read as the operand of `#check`).
pub fn parse_expr_text(text: &str) -> (r: Result<Expr, ProofError>)
    ensures
        r matches Err(e) ==> e is Parse,
{
    let none: Vec<NotationDecl> = Vec::new();
    parse_expr_text_with(text, none.as_slice())
}

/// [`parse_expr_text`] with the notations that the surrounding source has
/// declared.
pub fn parse_expr_text_with(text: &str, inherited: &[NotationDecl]) -> (r: Result<Expr, ProofError>)
    requires
        forall|k: int| 0 <= k < inherited@.len() ==> prec_ok((#[trigger] inherited@[k]).precedence),
    ensures
        r matches Err(e) ==> e is Parse,
{
    let source = concat2("#check ", text);
    let file = match parse_with_inherited(source.as_str(), inherited) {
        Ok(file) => file,
        Err(e) => {
            return Err(ProofError::Parse(e.message));
        },
    };
    let mut commands = file.commands;
    if commands.len() == 0 {
        return Err(ProofError::Parse(String::from_str("could not parse expression")));
    }
    match commands.remove(0) {
        Command::Check { expr, .. } => Ok(expr),
        _ => Err(ProofError::Parse(String::from_str("could not parse expression"))),
    }
}

fn zero_span() -> (r: Span)
    ensures
        r.start == (Pos { offset: 0, line: 0, column: 0 }),
        r.end == r.start,
{
    let p = Pos { offset: 0, line: 0, column: 0 };
    Span::new(p, p)
}

/// The proof draft: the remaining goal, the binders introduced so far, the
/// term that closes the goal (once given), and a snapshot before each
/// successful tactic.
pub struct ProofState {
    goal: Expr,
    goal_source: String,
    binders: Vec<Binder>,
    solution: Option<Expr>,
    history: Vec<ProofState>,
}

impl ProofState {
    /// `s` holds the same draft as `t` (goal, source, binders, solution).
    pub open spec fn same_draft(s: ProofState, t: ProofState) -> bool {
        &&& s.spec_goal() == t.spec_goal()
        &&& s.spec_source() == t.spec_source()
        &&& s.spec_binder_vec() == t.spec_binder_vec()
        &&& s.spec_solution() == t.spec_solution()
    }

    /// `after` came from `before` by a successful tactic: a snapshot of
    /// `before` (with no history of its own) was pushed on its history.
    pub open spec fn tactic_step(before: ProofState, after: ProofState) -> bool {
        &&& after.spec_history().len() == before.spec_history().len() + 1
        &&& after.spec_history().drop_last() == before.spec_history()
        &&& Self::same_draft(after.spec_history().last(), before)
        &&& after.spec_history().last().spec_history().len() == 0
    }

    /// `after` came from `before` by `undo`: the last snapshot came back,
    /// with the rest of the history.
    pub open spec fn undo_step(before: ProofState, after: ProofState) -> bool {
        &&& before.spec_history().len() > 0
        &&& Self::same_draft(after, before.spec_history().last())
        &&& after.spec_history() == before.spec_history().drop_last()
    }

    /// The goal's source text, as held.
    pub closed spec fn spec_source(&self) -> String {
        self.goal_source
    }

    /// The binders, as held.
    pub closed spec fn spec_binder_vec(&self) -> Vec<Binder> {
        self.binders
    }

    pub closed spec fn spec_done(&self) -> bool {
        self.solution is Some
    }

    pub open spec fn steps(&self) -> nat {
        self.spec_history().len()
    }

    pub closed spec fn spec_history(&self) -> Seq<ProofState> {
        self.history@
    }

    pub closed spec fn spec_goal(&self) -> Expr {
        self.goal
    }

    pub closed spec fn spec_goal_source(&self) -> Seq<char> {
        self.goal_source@
    }

    pub closed spec fn spec_binders(&self) -> Seq<Binder> {
        self.binders@
    }

    pub closed spec fn spec_solution(&self) -> Option<Expr> {
        self.solution
    }

    /// Start a draft for the goal `goal_text`.
    pub fn start(goal_text: &str) -> (r: Result<Self, ProofError>)
        ensures
            r matches Ok(s) ==> s.spec_goal_source() == goal_text@ && s.spec_binders().len() == 0 && !s.spec_done()
                && s.steps() == 0,
            r matches Err(e) ==> e is Parse,
    {
        let goal = parse_expr_text(goal_text)?;
        Ok(Self::start_with_goal(goal, goal_text))
    }

    /// A draft for the parsed goal `goal`, written as `goal_text`.
    pub fn start_with_goal(goal: Expr, goal_text: &str) -> (r: Self)
        ensures
            r.spec_goal() == goal,
            r.spec_goal_source() == goal_text@,
            r.spec_binders().len() == 0,
            r.spec_solution() is None,
            r.steps() == 0,
    {
        ProofState {
            goal,
            goal_source: String::from_str(goal_text),
            binders: Vec::new(),
            solution: None,
            history: Vec::new(),
        }
    }

    /// The remaining goal, rendered.
    pub fn goal_text(&self) -> (r: String)
        ensures
            r@ == rendered_expr(self.spec_goal()),
    {
        render_expr(&self.goal)
    }

    /// The goal as the draft was started.
    pub fn goal_source(&self) -> (r: &str)
        ensures
            r@ == self.spec_goal_source(),
    {
        self.goal_source.as_str()
    }

    /// The binders introduced so far.
    pub fn binders(&self) -> (r: &[Binder])
        ensures
            r@ == self.spec_binders(),
    {
        self.binders.as_slice()
    }

    /// The term built so far: the introduced binders as nested lambdas around
    /// the solution (`sorry` while the hole is open).
    pub fn lambda_text(&self) -> (r: String)
        ensures
            r@ == lambda_chained(self.spec_binders(), solution_text(self.spec_solution())),
    {
        let ghost binders = self.binders@;
        let ghost tail = solution_text(self.solution);
        let mut text = match &self.solution {
            Some(e) => render_expr(e),
            None => String::from_str("sorry"),
        };
        let mut i: usize = self.binders.len();
        proof {
            assert(binders.subrange(binders.len() as int, binders.len() as int) =~= Seq::<Binder>::empty());
        }
        while i > 0
            invariant
                binders == self.binders@,
                i <= binders.len(),
                text@ == lambda_chained(binders.subrange(i as int, binders.len() as int), tail),
            decreases i,
        {
            i = i - 1;
            let b = render_binder(&self.binders[i]);
            text = concat4("fun ", b.as_str(), " => ", text.as_str());
            proof {
                let next = binders.subrange(i as int, binders.len() as int);
                assert(next.subrange(1, next.len() as int) =~= binders.subrange(i + 1, binders.len() as int));
                assert(next[0] == binders[i as int]);
            }
        }
        proof {
            assert(binders.subrange(0, binders.len() as int) =~= binders);
        }
        text
    }

    /// Record a snapshot of the current draft; the draft keeps copies.
    fn push_snapshot(&mut self)
        ensures
            Self::tactic_step(*old(self), *final(self)),
            final(self).goal_source == old(self).goal_source,
            final(self).solution is Some <==> old(self).solution is Some,
            rendered_expr(final(self).goal) == rendered_expr(old(self).goal),
            binders_alike(final(self).binders@, old(self).binders@),
            solution_text(final(self).solution) == solution_text(old(self).solution),
    {
        let mut goal = clone_expr(&self.goal);
        std::mem::swap(&mut self.goal, &mut goal);
        let mut binders = clone_binders(&self.binders);
        std::mem::swap(&mut self.binders, &mut binders);
        let mut solution = match &self.solution {
            Some(e) => Some(clone_expr(e)),
            None => None,
        };
        std::mem::swap(&mut self.solution, &mut solution);
        let snapshot = ProofState {
            goal,
            goal_source: self.goal_source.clone(),
            binders,
            solution,
            history: Vec::new(),
        };
        self.history.push(snapshot);
        proof {
            assert(self.history@.drop_last() =~= old(self).history@);
        }
    }

    /// `intro`: a `∀`/named arrow goal gives up its first binder; a plain
    /// arrow `A -> B` gives a binder `name : A`. The goal becomes the body.
    pub fn intro(&mut self, name: &str) -> (r: Result<(), ProofError>)
        ensures
            r is Ok <==> (old(self).spec_goal() matches Expr::Forall { binders, .. } && binders@.len()
                > 0) || old(self).spec_goal() is Arrow,
            r matches Err(e) ==> e is NotABinder && *final(self) == *old(self),
            r is Ok ==> Self::tactic_step(*old(self), *final(self)),
            r is Ok ==> final(self).spec_goal_source() == old(self).spec_goal_source(),
            r is Ok ==> (final(self).spec_done() <==> old(self).spec_done()),
            r is Ok ==> final(self).spec_binders().len() == old(self).spec_binders().len() + 1,
            r is Ok ==> binders_alike(final(self).spec_binders().drop_last(), old(self).spec_binders()),
            r is Ok ==> solution_text(final(self).spec_solution()) == solution_text(old(self).spec_solution()),
            old(self).spec_goal() matches Expr::Forall { binders, body, .. } ==> (binders@.len() > 0 ==> {
                &&& rendered_expr(final(self).spec_goal()) == rendered_expr(*body)
                &&& rendered_binder(final(self).spec_binders().last()) == rendered_binder(binders@[0])
            }),
            old(self).spec_goal() matches Expr::Arrow { domain, codomain, .. } ==> {
                &&& rendered_expr(final(self).spec_goal()) == rendered_expr(*codomain)
                &&& rendered_binder(final(self).spec_binders().last()) == "("@ + name@ + " : "@
                    + rendered_expr(*domain) + ")"@
            },
    {
        let (binder, body) = match &self.goal {
            Expr::Forall { binders, body, .. } => {
                if binders.len() == 0 {
                    return Err(ProofError::NotABinder);
                }
                (clone_binder(&binders[0]), clone_expr(body))
            },
            Expr::Arrow { domain, codomain, .. } => (
                Binder {
                    name: String::from_str(name),
                    ty: Some(Box::new(clone_expr(domain))),
                    style: BinderKind::Explicit,
                    span: zero_span(),
                },
                clone_expr(codomain),
            ),
            _ => {
                return Err(ProofError::NotABinder);
            },
        };
        self.push_snapshot();
        self.binders.push(binder);
        self.goal = body;
        Ok(())
    }

    /// `exact`: the term text fills the open hole.
    pub fn exact(&mut self, term_text: &str) -> (r: Result<(), ProofError>)
        ensures
            r matches Err(e) ==> (e is Parse || (e is NoHole && old(self).spec_done()))
                && *final(self) == *old(self),
            old(self).spec_done() ==> r is Err,
            r is Ok ==> Self::tactic_step(*old(self), *final(self)) && final(self).spec_done(),
            r is Ok ==> rendered_expr(final(self).spec_goal()) == rendered_expr(old(self).spec_goal())
                && binders_alike(final(self).spec_binders(), old(self).spec_binders()),
    {
        let term = parse_expr_text(term_text)?;
        self.exact_term(term)
    }

    /// `exact` with the term already parsed: it becomes the solution.
    pub fn exact_term(&mut self, term: Expr) -> (r: Result<(), ProofError>)
        ensures
            r is Err <==> old(self).spec_done(),
            r matches Err(e) ==> e is NoHole && *final(self) == *old(self),
            r is Ok ==> Self::tactic_step(*old(self), *final(self)) && final(self).spec_solution() == Some(term),
            r is Ok ==> rendered_expr(final(self).spec_goal()) == rendered_expr(old(self).spec_goal())
                && binders_alike(final(self).spec_binders(), old(self).spec_binders())
                && final(self).spec_goal_source() == old(self).spec_goal_source(),
    {
        if self.solution.is_some() {
            return Err(ProofError::NoHole);
        }
        self.push_snapshot();
        self.solution = Some(term);
        Ok(())
    }

    /// Go back to the snapshot before the last successful tactic; `false`
    /// when there is none.
    pub fn undo(&mut self) -> (r: bool)
        ensures
            r == (old(self).steps() > 0),
            r ==> Self::undo_step(*old(self), *final(self)),
            !r ==> *final(self) == *old(self),
    {
        if self.history.len() == 0 {
            return false;
        }
        let mut snapshot = match self.history.pop() {
            Some(s) => s,
            None => {
                return false;
            },
        };
        std::mem::swap(&mut snapshot.history, &mut self.history);
        *self = snapshot;
        true
    }

    /// Whether the hole is filled.
    pub fn done(&self) -> (r: bool)
        ensures
            r == self.spec_done(),
    {
        self.solution.is_some()
    }
}

/// Undoing a successful tactic gives back the draft as it was before the
/// tactic: the same goal, source, binders and solution, and a history with
/// the same snapshots.
pub proof fn lemma_undo_restores_the_draft(before: ProofState, after: ProofState, undone: ProofState)
    requires
        ProofState::tactic_step(before, after),
        ProofState::undo_step(after, undone),
    ensures
        undone.spec_goal() == before.spec_goal(),
        undone.spec_goal_source() == before.spec_goal_source(),
        undone.spec_binders() == before.spec_binders(),
        undone.spec_solution() == before.spec_solution(),
        undone.spec_history() == before.spec_history(),
{
}

// ---------------------------------------------------------------------------
// Rendering back to source text.
// ---------------------------------------------------------------------------

/// `s`, in parentheses when `wrap`.
pub open spec fn paren_if(s: Seq<char>, wrap: bool) -> Seq<char> {
    if wrap {
        "("@ + s + ")"@
    } else {
        s
    }
}

/// The names joined by `sep`.
pub open spec fn joined_names(v: Seq<String>, sep: Seq<char>) -> Seq<char>
    decreases v.len(),
{
    if v.len() == 0 {
        Seq::empty()
    } else if v.len() == 1 {
        v[0]@
    } else {
        joined_names(v.drop_last(), sep) + sep + v.last()@
    }
}

/// The names of the binders.
pub open spec fn binder_names(v: Seq<Binder>) -> Seq<String>
    decreases v.len(),
{
    if v.len() == 0 {
        Seq::empty()
    } else {
        binder_names(v.drop_last()).push(v.last().name)
    }
}

/// A sub-pattern is parenthesized when it has arguments of its own.
pub open spec fn pattern_needs_parens(p: Pattern) -> bool {
    match p {
        Pattern::Ident { args, .. } => args@.len() > 0,
        _ => false,
    }
}

/// The source text of an expression.
pub open spec fn rendered_expr(e: Expr) -> Seq<char>
    decreases e, 2nat,
{
    match e {
        Expr::Sort { sort, .. } => match sort {
            SortKind::Prop => "Prop"@,
            SortKind::Type => "Type"@,
            SortKind::Sort(n) => "Sort "@ + decimal_text(n as nat),
            SortKind::Level(name) => if name@.contains('+') {
                "Sort ("@ + name@ + ")"@
            } else {
                "Sort "@ + name@
            },
        },
        Expr::Ident { name, .. } => name@,
        Expr::UniverseApp { name, levels, .. } => name@ + ".{"@ + joined_names(levels@, ", "@) + "}"@,
        Expr::Num { value, .. } => value@,
        Expr::Hole { .. } => "sorry"@,
        Expr::App { fun, arg, explicit_spine, .. } => if explicit_spine {
            rendered_spine(*fun) + " "@ + rendered_atom(*arg)
        } else {
            rendered_fun(*fun) + " "@ + rendered_atom(*arg)
        },
        Expr::Lambda { binders, body, .. } => "fun "@ + rendered_binders(binders@) + " => "@
            + rendered_expr(*body),
        Expr::Forall { binders, body, .. } => arrow_chained(binders@, rendered_expr(*body)),
        Expr::Arrow { domain, codomain, .. } => rendered_fun(*domain) + " -> "@ + rendered_expr(
            *codomain,
        ),
        Expr::Plus { lhs, rhs, .. } => rendered_expr(*lhs) + " + "@ + rendered_expr(*rhs),
        Expr::Let { binder, val, body, .. } => match binder.ty {
            Some(ty) => "let "@ + binder.name@ + " : "@ + rendered_expr(*ty) + " := "@ + rendered_expr(
                *val,
            ) + "; "@ + rendered_expr(*body),
            None => "let "@ + binder.name@ + " := "@ + rendered_expr(*val) + "; "@ + rendered_expr(
                *body,
            ),
        },
        Expr::By { tactics, .. } => "by "@ + rendered_tactics(tactics@),
        Expr::Match { scrutinee, arms, .. } => "match "@ + rendered_expr(*scrutinee) + " with "@
            + rendered_match_arms(arms@),
        Expr::Notation { symbol, assoc, lhs, rhs, .. } => if assoc is Prefix && rhs is Some {
            symbol@ + " "@ + rendered_atom(*rhs->0)
        } else if assoc is Postfix && lhs is Some {
            rendered_atom(*lhs->0) + " "@ + symbol@
        } else if assoc is Binder && rhs is Some {
            rendered_binder_notation(symbol@, *rhs->0)
        } else if lhs is Some && rhs is Some {
            rendered_atom(*lhs->0) + " "@ + symbol@ + " "@ + rendered_atom(*rhs->0)
        } else {
            symbol@
        },
        Expr::SetLiteral { elements, .. } => "{"@ + rendered_list(elements@, ", "@) + "}"@,
        Expr::AnonCtor { elements, .. } => "⟨"@ + rendered_list(elements@, ", "@) + "⟩"@,
    }
}

/// `t` starts with `a` and ends with `b`, with text in between.
pub open spec fn starts_and_ends(t: Seq<char>, a: Seq<char>, b: Seq<char>) -> bool {
    &&& a.len() + b.len() < t.len()
    &&& t.take(a.len() as int) == a
    &&& t.skip(t.len() - b.len()) == b
}

proof fn lemma_joined_starts_and_ends(a: Seq<char>, m: Seq<char>, b: Seq<char>)
    requires
        m.len() > 0,
    ensures
        starts_and_ends(a + m + b, a, b),
{
    assert((a + m + b).take(a.len() as int) =~= a);
    assert((a + m + b).skip((a + m + b).len() - b.len()) =~= b);
}

/// Rendering keeps the order of the operands: an infix notation is written
/// as its left operand, the symbol and its right operand, in that order; a
/// prefix notation starts with its symbol and ends with its operand, a
/// postfix one the other way round; a lambda starts with `fun ` and ends
/// with its body; an arrow starts with its domain and ends with its
/// codomain; a sum starts with its left summand and ends with its right
/// one; an application starts with its function and ends with its
/// argument.
pub proof fn lemma_rendering_keeps_operand_order(e: Expr)
    ensures
        e matches Expr::Notation { symbol, assoc, lhs, rhs, .. } ==> (lhs is Some && rhs is Some && !(assoc is Prefix
            || assoc is Postfix || assoc is Binder) ==> rendered_expr(e) == rendered_atom(*lhs->0) + " "@
            + symbol@ + " "@ + rendered_atom(*rhs->0) && starts_and_ends(
            rendered_expr(e),
            rendered_atom(*lhs->0),
            rendered_atom(*rhs->0),
        )),
        e matches Expr::Notation { symbol, assoc, rhs, .. } ==> (assoc is Prefix && rhs is Some
            ==> starts_and_ends(rendered_expr(e), symbol@, rendered_atom(*rhs->0))),
        e matches Expr::Notation { symbol, assoc, lhs, .. } ==> (assoc is Postfix && lhs is Some
            ==> starts_and_ends(rendered_expr(e), rendered_atom(*lhs->0), symbol@)),
        e matches Expr::Arrow { domain, codomain, .. } ==> starts_and_ends(
            rendered_expr(e),
            rendered_fun(*domain),
            rendered_expr(*codomain),
        ),
        e matches Expr::Plus { lhs, rhs, .. } ==> starts_and_ends(rendered_expr(e), rendered_expr(*lhs), rendered_expr(*rhs)),
        e matches Expr::Lambda { body, .. } ==> starts_and_ends(rendered_expr(e), "fun "@, rendered_expr(*body)),
        e matches Expr::App { fun, arg, explicit_spine, .. } ==> (!explicit_spine ==> starts_and_ends(
            rendered_expr(e),
            rendered_fun(*fun),
            rendered_atom(*arg),
        )),
{
    match e {
        Expr::Notation { symbol, assoc, lhs, rhs, .. } => {
            if lhs is Some && rhs is Some && !(assoc is Prefix || assoc is Postfix || assoc is Binder) {
                let a = rendered_atom(*lhs->0);
                let b = rendered_atom(*rhs->0);
                assert(a + " "@ + symbol@ + " "@ + b == a + (" "@ + symbol@ + " "@) + b) by {
                    assert(a + " "@ + symbol@ + " "@ + b =~= a + (" "@ + symbol@ + " "@) + b);
                }
                reveal_strlit(" ");
                lemma_joined_starts_and_ends(a, " "@ + symbol@ + " "@, b);
            } else if assoc is Prefix && rhs is Some {
                reveal_strlit(" ");
                lemma_joined_starts_and_ends(symbol@, " "@, rendered_atom(*rhs->0));
            } else if assoc is Postfix && lhs is Some {
                reveal_strlit(" ");
                lemma_joined_starts_and_ends(rendered_atom(*lhs->0), " "@, symbol@);
            }
        },
        Expr::Arrow { domain, codomain, .. } => {
            reveal_strlit(" -> ");
            lemma_joined_starts_and_ends(rendered_fun(*domain), " -> "@, rendered_expr(*codomain));
        },
        Expr::Lambda { binders, body, .. } => {
            reveal_strlit(" => ");
            let m = rendered_binders(binders@) + " => "@;
            assert("fun "@ + rendered_binders(binders@) + " => "@ + rendered_expr(*body) =~= "fun "@ + m
                + rendered_expr(*body));
            lemma_joined_starts_and_ends("fun "@, m, rendered_expr(*body));
        },
        Expr::Plus { lhs, rhs, .. } => {
            reveal_strlit(" + ");
            lemma_joined_starts_and_ends(rendered_expr(*lhs), " + "@, rendered_expr(*rhs));
        },
        Expr::App { fun, arg, explicit_spine, .. } => {
            if !explicit_spine {
                reveal_strlit(" ");
                lemma_joined_starts_and_ends(rendered_fun(*fun), " "@, rendered_atom(*arg));
            }
        },
        _ => {},
    }
}

/// Where rendering puts parentheses: as an argument every compound form
/// (application, lambda, `∀`, arrow, sum, `let`, `match`, notation, set
/// literal, anonymous constructor) is wrapped in parentheses and the
/// simple forms are not; in a function position the same holds, except
/// that an application chain stays bare.
pub proof fn lemma_compound_operands_are_parenthesized(e: Expr)
    ensures
        e is App || e is Lambda || e is Forall || e is Arrow || e is Plus || e is Let || e is Match
            || e is Notation || e is SetLiteral || e is AnonCtor ==> rendered_atom(e) == "("@
            + rendered_expr(e) + ")"@,
        e is Ident || e is UniverseApp || e is Sort || e is Num || e is Hole || e is By ==> rendered_atom(e)
            == rendered_expr(e),
        e is Lambda || e is Forall || e is Arrow || e is Plus || e is Let || e is Match || e is Notation
            || e is SetLiteral || e is AnonCtor ==> rendered_fun(e) == "("@ + rendered_expr(e) + ")"@,
        e is App || e is Ident || e is UniverseApp || e is Sort || e is Num || e is Hole || e is By
            ==> rendered_fun(e) == rendered_expr(e),
{
}

/// In a function position: application chains need no parentheses.
pub open spec fn rendered_fun(e: Expr) -> Seq<char>
    decreases e, 3nat,
{
    paren_if(rendered_expr(e), needs_parens_as_fun(e))
}

/// In an argument position: every compound form is parenthesized.
pub open spec fn rendered_atom(e: Expr) -> Seq<char>
    decreases e, 3nat,
{
    paren_if(rendered_expr(e), needs_parens_as_atom(e))
}

/// `@head a b …`: one `@` for the whole spine, right before its head.
pub open spec fn rendered_spine(e: Expr) -> Seq<char>
    decreases e, 4nat,
{
    match e {
        Expr::App { fun, arg, .. } => rendered_spine(*fun) + " "@ + rendered_atom(*arg),
        _ => "@"@ + rendered_atom(e),
    }
}

/// `(x : A)` or `{x : A}` (the type part only when there is one).
pub open spec fn rendered_binder(b: Binder) -> Seq<char>
    decreases b, 4nat,
{
    let ty = match b.ty {
        Some(t) => " : "@ + rendered_expr(*t),
        None => Seq::empty(),
    };
    match b.style {
        BinderKind::Explicit => "("@ + b.name@ + ty + ")"@,
        BinderKind::Implicit => "{"@ + b.name@ + ty + "}"@,
    }
}

/// The binders joined by single spaces.
pub open spec fn rendered_binders(v: Seq<Binder>) -> Seq<char>
    decreases v, 5nat,
{
    if v.len() == 0 {
        Seq::empty()
    } else if v.len() == 1 {
        rendered_binder(v[0])
    } else {
        rendered_binders(v.subrange(0, v.len() - 1)) + " "@ + rendered_binder(v[v.len() - 1])
    }
}

/// `b₁ -> b₂ -> … -> text`.
pub open spec fn arrow_chained(v: Seq<Binder>, text: Seq<char>) -> Seq<char>
    decreases v, 5nat,
{
    if v.len() == 0 {
        text
    } else {
        rendered_binder(v[0]) + " -> "@ + arrow_chained(v.subrange(1, v.len() as int), text)
    }
}

/// The expressions joined by `sep`.
pub open spec fn rendered_list(v: Seq<Expr>, sep: Seq<char>) -> Seq<char>
    decreases v, 5nat,
{
    if v.len() == 0 {
        Seq::empty()
    } else if v.len() == 1 {
        rendered_expr(v[0])
    } else {
        rendered_list(v.subrange(0, v.len() - 1), sep) + sep + rendered_expr(v[v.len() - 1])
    }
}

/// A binder notation in source shape: `∃ (x : A), body` for an operand
/// `fun (x : A) => body`; otherwise the symbol, the names and the body;
/// without a lambda, the symbol alone.
pub open spec fn rendered_binder_notation(symbol: Seq<char>, operand: Expr) -> Seq<char>
    decreases operand, 4nat,
{
    match operand {
        Expr::Lambda { binders, body, .. } => if binders@.len() == 1 && binders@[0].ty is Some {
            symbol + " "@ + rendered_binder(binders@[0]) + ", "@ + rendered_expr(*body)
        } else {
            symbol + " "@ + joined_names(binder_names(binders@), " "@) + ", "@ + rendered_expr(*body)
        },
        _ => symbol,
    }
}

/// A pattern in source syntax.
pub open spec fn rendered_pattern(p: Pattern) -> Seq<char>
    decreases p, 0nat,
{
    match p {
        Pattern::Wild { .. } => "_"@,
        Pattern::Num { value, .. } => value@,
        Pattern::Ident { name, args, .. } => if args@.len() == 0 {
            name@
        } else {
            name@ + " "@ + rendered_pattern_args(args@)
        },
    }
}

/// Sub-patterns joined by single spaces.
pub open spec fn rendered_pattern_args(v: Seq<Pattern>) -> Seq<char>
    decreases v, 1nat,
{
    if v.len() == 0 {
        Seq::empty()
    } else if v.len() == 1 {
        paren_if(rendered_pattern(v[0]), pattern_needs_parens(v[0]))
    } else {
        rendered_pattern_args(v.subrange(0, v.len() - 1)) + " "@ + paren_if(
            rendered_pattern(v[v.len() - 1]),
            pattern_needs_parens(v[v.len() - 1]),
        )
    }
}

/// `| pattern [if guard] => body`.
pub open spec fn rendered_match_arm(a: MatchArm) -> Seq<char>
    decreases a, 4nat,
{
    let guard = match a.guard {
        Some(g) => " if "@ + rendered_expr(g),
        None => Seq::empty(),
    };
    "| "@ + rendered_pattern(a.pattern) + guard + " => "@ + rendered_expr(a.body)
}

/// Match arms joined by single spaces.
pub open spec fn rendered_match_arms(v: Seq<MatchArm>) -> Seq<char>
    decreases v, 5nat,
{
    if v.len() == 0 {
        Seq::empty()
    } else if v.len() == 1 {
        rendered_match_arm(v[0])
    } else {
        rendered_match_arms(v.subrange(0, v.len() - 1)) + " "@ + rendered_match_arm(v[v.len() - 1])
    }
}

/// Tactics joined by `; `.
pub open spec fn rendered_tactics(v: Seq<Tactic>) -> Seq<char>
    decreases v, 5nat,
{
    if v.len() == 0 {
        Seq::empty()
    } else if v.len() == 1 {
        rendered_tactic(v[0])
    } else {
        rendered_tactics(v.subrange(0, v.len() - 1)) + "; "@ + rendered_tactic(v[v.len() - 1])
    }
}

/// A `cases` arm on a line of its own.
pub open spec fn rendered_cases_arm(a: CasesArm) -> Seq<char>
    decreases a, 4nat,
{
    "\n  | "@ + a.ctor@ + " "@ + joined_names(a.binders@, " "@) + " => "@ + rendered_tactics(a.tactics@)
}

/// The `cases` arms, one after the other.
pub open spec fn rendered_cases_arms(v: Seq<CasesArm>) -> Seq<char>
    decreases v, 5nat,
{
    if v.len() == 0 {
        Seq::empty()
    } else {
        rendered_cases_arms(v.subrange(0, v.len() - 1)) + rendered_cases_arm(v[v.len() - 1])
    }
}

/// A tactic in source syntax.
pub open spec fn rendered_tactic(t: Tactic) -> Seq<char>
    decreases t, 4nat,
{
    match t {
        Tactic::Intro { names, .. } => "intro "@ + joined_names(names@, " "@),
        Tactic::Exact { expr, .. } => "exact "@ + rendered_expr(expr),
        Tactic::Apply { expr, .. } => "apply "@ + rendered_expr(expr),
        Tactic::Assumption { .. } => "assumption"@,
        Tactic::Rfl { .. } => "rfl"@,
        Tactic::Constructor { .. } => "constructor"@,
        Tactic::Left { .. } => "left"@,
        Tactic::Right { .. } => "right"@,
        Tactic::Use { expr, .. } => "use "@ + rendered_expr(expr),
        Tactic::Exfalso { .. } => "exfalso"@,
        Tactic::Cases { expr, arms, .. } => "cases "@ + rendered_expr(expr) + rendered_cases_arms(arms@),
        Tactic::Have { name, ty, value, .. } => {
            let v = match value {
                HaveValue::Term(e) => rendered_expr(e),
                HaveValue::By(ts) => "by "@ + rendered_tactics(ts@),
            };
            "have "@ + name@ + " : "@ + rendered_expr(ty) + " := "@ + v
        },
        Tactic::Sorry { .. } => "sorry"@,
    }
}

// ---------------------------------------------------------------------------
// Copies render alike: element-wise equal renderings give equal joined
// renderings.
// ---------------------------------------------------------------------------

/// Two binder sequences that agree binder by binder (rendering, name, and
/// whether a type is written).
pub open spec fn binders_alike(a: Seq<Binder>, b: Seq<Binder>) -> bool {
    &&& a.len() == b.len()
    &&& forall|i: int|
        0 <= i < a.len() ==> rendered_binder(#[trigger] a[i]) == rendered_binder(b[i]) && a[i].name == b[i].name
            && (a[i].ty is Some <==> b[i].ty is Some)
}

pub proof fn lemma_binders_alike(a: Seq<Binder>, b: Seq<Binder>, text: Seq<char>)
    requires
        binders_alike(a, b),
    ensures
        rendered_binders(a) == rendered_binders(b),
        arrow_chained(a, text) == arrow_chained(b, text),
        lambda_chained(a, text) == lambda_chained(b, text),
        binder_names(a) == binder_names(b),
    decreases a.len(),
{
    if a.len() > 0 {
        let n = a.len() as int;
        assert(rendered_binder(a[n - 1]) == rendered_binder(b[n - 1]));
        assert(rendered_binder(a[0]) == rendered_binder(b[0]));
        lemma_binders_alike(a.subrange(0, n - 1), b.subrange(0, n - 1), text);
        lemma_binders_alike(a.subrange(1, n), b.subrange(1, n), text);
        assert(a.drop_last() =~= a.subrange(0, n - 1));
        assert(b.drop_last() =~= b.subrange(0, n - 1));
        assert(a.last().name == b.last().name);
    }
}

pub proof fn lemma_exprs_alike(a: Seq<Expr>, b: Seq<Expr>, sep: Seq<char>)
    requires
        a.len() == b.len(),
        forall|i: int| 0 <= i < a.len() ==> rendered_expr(#[trigger] a[i]) == rendered_expr(b[i]),
    ensures
        rendered_list(a, sep) == rendered_list(b, sep),
    decreases a.len(),
{
    if a.len() > 0 {
        let n = a.len() as int;
        assert(rendered_expr(a[n - 1]) == rendered_expr(b[n - 1]));
        assert(rendered_expr(a[0]) == rendered_expr(b[0]));
        lemma_exprs_alike(a.subrange(0, n - 1), b.subrange(0, n - 1), sep);
    }
}

pub proof fn lemma_patterns_alike(a: Seq<Pattern>, b: Seq<Pattern>)
    requires
        a.len() == b.len(),
        forall|i: int|
            0 <= i < a.len() ==> rendered_pattern(#[trigger] a[i]) == rendered_pattern(b[i])
                && pattern_needs_parens(a[i]) == pattern_needs_parens(b[i]),
    ensures
        rendered_pattern_args(a) == rendered_pattern_args(b),
    decreases a.len(),
{
    if a.len() > 0 {
        let n = a.len() as int;
        assert(rendered_pattern(a[n - 1]) == rendered_pattern(b[n - 1]));
        assert(rendered_pattern(a[0]) == rendered_pattern(b[0]));
        lemma_patterns_alike(a.subrange(0, n - 1), b.subrange(0, n - 1));
    }
}

pub proof fn lemma_match_arms_alike(a: Seq<MatchArm>, b: Seq<MatchArm>)
    requires
        a.len() == b.len(),
        forall|i: int| 0 <= i < a.len() ==> rendered_match_arm(#[trigger] a[i]) == rendered_match_arm(b[i]),
    ensures
        rendered_match_arms(a) == rendered_match_arms(b),
    decreases a.len(),
{
    if a.len() > 0 {
        let n = a.len() as int;
        assert(rendered_match_arm(a[n - 1]) == rendered_match_arm(b[n - 1]));
        assert(rendered_match_arm(a[0]) == rendered_match_arm(b[0]));
        lemma_match_arms_alike(a.subrange(0, n - 1), b.subrange(0, n - 1));
    }
}

pub proof fn lemma_tactics_alike(a: Seq<Tactic>, b: Seq<Tactic>)
    requires
        a.len() == b.len(),
        forall|i: int| 0 <= i < a.len() ==> rendered_tactic(#[trigger] a[i]) == rendered_tactic(b[i]),
    ensures
        rendered_tactics(a) == rendered_tactics(b),
    decreases a.len(),
{
    if a.len() > 0 {
        let n = a.len() as int;
        assert(rendered_tactic(a[n - 1]) == rendered_tactic(b[n - 1]));
        assert(rendered_tactic(a[0]) == rendered_tactic(b[0]));
        lemma_tactics_alike(a.subrange(0, n - 1), b.subrange(0, n - 1));
    }
}

pub proof fn lemma_cases_arms_alike(a: Seq<CasesArm>, b: Seq<CasesArm>)
    requires
        a.len() == b.len(),
        forall|i: int| 0 <= i < a.len() ==> rendered_cases_arm(#[trigger] a[i]) == rendered_cases_arm(b[i]),
    ensures
        rendered_cases_arms(a) == rendered_cases_arms(b),
    decreases a.len(),
{
    if a.len() > 0 {
        let n = a.len() as int;
        assert(rendered_cases_arm(a[n - 1]) == rendered_cases_arm(b[n - 1]));
        lemma_cases_arms_alike(a.subrange(0, n - 1), b.subrange(0, n - 1));
    }
}

/// The text of a draft's term: the solution, or `sorry` while the hole is
/// open.
pub open spec fn solution_text(solution: Option<Expr>) -> Seq<char> {
    match solution {
        Some(e) => rendered_expr(e),
        None => "sorry"@,
    }
}

/// `fun b₁ => fun b₂ => … => text`: the binders as nested one-binder
/// lambdas around `text` (what rendering those lambdas gives).
pub open spec fn lambda_chained(v: Seq<Binder>, text: Seq<char>) -> Seq<char>
    decreases v.len(),
{
    if v.len() == 0 {
        text
    } else {
        "fun "@ + rendered_binder(v[0]) + " => "@ + lambda_chained(v.subrange(1, v.len() as int), text)
    }
}

/// Expressions whose rendering needs parentheses in a function position.
pub open spec fn needs_parens_as_fun(e: Expr) -> bool {
    e is Lambda || e is Forall || e is Arrow || e is Plus || e is Let || e is Match || e is Notation
        || e is SetLiteral || e is AnonCtor
}

/// Expressions whose rendering needs parentheses as an argument.
pub open spec fn needs_parens_as_atom(e: Expr) -> bool {
    e is App || needs_parens_as_fun(e)
}

fn parenthesize(s: String, wrap: bool) -> (r: String)
    ensures
        wrap ==> r@ == "("@ + s@ + ")"@,
        !wrap ==> r@ == s@,
{
    if wrap {
        concat3("(", s.as_str(), ")")
    } else {
        s
    }
}

/// A function-position rendering: application chains need no parentheses.
fn render_fun_position(expr: &Expr) -> (r: String)
    ensures
        r@ == rendered_fun(*expr),
    decreases expr, 3nat,
{
    let s = render_expr(expr);
    let wrap = match expr {
        Expr::Lambda { .. }
        | Expr::Forall { .. }
        | Expr::Arrow { .. }
        | Expr::Plus { .. }
        | Expr::Let { .. }
        | Expr::Match { .. }
        | Expr::Notation { .. }
        | Expr::SetLiteral { .. }
        | Expr::AnonCtor { .. } => true,
        _ => false,
    };
    parenthesize(s, wrap)
}

/// An argument-position rendering: every compound form is parenthesized.
pub fn render_atom(expr: &Expr) -> (r: String)
    ensures
        r@ == rendered_atom(*expr),
    decreases expr, 3nat,
{
    let s = render_expr(expr);
    let wrap = match expr {
        Expr::App { .. }
        | Expr::Lambda { .. }
        | Expr::Forall { .. }
        | Expr::Arrow { .. }
        | Expr::Plus { .. }
        | Expr::Let { .. }
        | Expr::Match { .. }
        | Expr::Notation { .. }
        | Expr::SetLiteral { .. }
        | Expr::AnonCtor { .. } => true,
        _ => false,
    };
    parenthesize(s, wrap)
}

/// `@head a b …`: one `@` for the whole application spine, right before its
/// head.
fn render_spine(expr: &Expr) -> (r: String)
    ensures
        r@ == rendered_spine(*expr),
    decreases expr, 4nat,
{
    match expr {
        Expr::App { fun, arg, .. } => {
            let head = render_spine(fun);
            let arg = render_atom(arg);
            concat3(head.as_str(), " ", arg.as_str())
        },
        _ => {
            let head = render_atom(expr);
            concat2("@", head.as_str())
        },
    }
}

fn render_binder(binder: &Binder) -> (r: String)
    ensures
        r@ == rendered_binder(*binder),
    decreases binder, 4nat,
{
    let ty = match &binder.ty {
        Some(ty) => {
            let t = render_expr(ty);
            concat2(" : ", t.as_str())
        },
        None => String::new(),
    };
    match binder.style {
        BinderKind::Explicit => concat4("(", binder.name.as_str(), ty.as_str(), ")"),
        BinderKind::Implicit => concat4("{", binder.name.as_str(), ty.as_str(), "}"),
    }
}

/// The binders rendered and joined by single spaces.
fn render_binders(v: &Vec<Binder>) -> (r: String)
    ensures
        r@ == rendered_binders(v@),
    decreases v, 5nat,
{
    let mut out = String::new();
    let mut i: usize = 0;
    while i < v.len()
        invariant
            i <= v@.len(),
            out@ == rendered_binders(v@.subrange(0, i as int)),
        decreases v.len() - i,
    {
        proof {
            assert(decreases_to!(v => v@));
        }
        if i > 0 {
            out.append(" ");
        }
        let b = render_binder(&v[i]);
        out.append(b.as_str());
        proof {
            let next = v@.subrange(0, i + 1);
            assert(next.subrange(0, i as int) =~= v@.subrange(0, i as int));
            assert(next[i as int] == v@[i as int]);
            if i == 0 {
                assert(out@ =~= rendered_binders(next));
            }
        }
        i = i + 1;
    }
    proof {
        assert(v@.subrange(0, v@.len() as int) =~= v@);
    }
    out
}

/// `(b₁) -> (b₂) -> … -> text` for the binders `b₁ b₂ …`.
fn arrow_chain(v: &Vec<Binder>, text: String) -> (r: String)
    ensures
        r@ == arrow_chained(v@, text@),
    decreases v, 5nat,
{
    let ghost tail = text@;
    let mut text = text;
    let mut i: usize = v.len();
    proof {
        assert(v@.subrange(v@.len() as int, v@.len() as int) =~= Seq::<Binder>::empty());
    }
    while i > 0
        invariant
            i <= v@.len(),
            text@ == arrow_chained(v@.subrange(i as int, v@.len() as int), tail),
        decreases i,
    {
        i = i - 1;
        proof {
            assert(decreases_to!(v => v@));
        }
        let b = render_binder(&v[i]);
        text = concat3(b.as_str(), " -> ", text.as_str());
        proof {
            let next = v@.subrange(i as int, v@.len() as int);
            assert(next.subrange(1, next.len() as int) =~= v@.subrange(i + 1, v@.len() as int));
            assert(next[0] == v@[i as int]);
        }
    }
    proof {
        assert(v@.subrange(0, v@.len() as int) =~= v@);
    }
    text
}

/// The expressions rendered and joined by `sep`.
fn render_list(v: &Vec<Expr>, sep: &str) -> (r: String)
    ensures
        r@ == rendered_list(v@, sep@),
    decreases v, 5nat,
{
    let mut out = String::new();
    let mut i: usize = 0;
    while i < v.len()
        invariant
            i <= v@.len(),
            out@ == rendered_list(v@.subrange(0, i as int), sep@),
        decreases v.len() - i,
    {
        proof {
            assert(decreases_to!(v => v@));
        }
        if i > 0 {
            out.append(sep);
        }
        let e = render_expr(&v[i]);
        out.append(e.as_str());
        proof {
            let next = v@.subrange(0, i + 1);
            assert(next.subrange(0, i as int) =~= v@.subrange(0, i as int));
            assert(next[i as int] == v@[i as int]);
            if i == 0 {
                assert(out@ =~= rendered_list(next, sep@));
            }
        }
        i = i + 1;
    }
    proof {
        assert(v@.subrange(0, v@.len() as int) =~= v@);
    }
    out
}

fn join_names(v: &Vec<String>, sep: &str) -> (r: String)
    ensures
        r@ == joined_names(v@, sep@),
{
    let mut out = String::new();
    let mut i: usize = 0;
    while i < v.len()
        invariant
            i <= v@.len(),
            out@ == joined_names(v@.subrange(0, i as int), sep@),
        decreases v.len() - i,
    {
        if i > 0 {
            out.append(sep);
        }
        out.append(v[i].as_str());
        proof {
            let next = v@.subrange(0, i + 1);
            assert(next.drop_last() =~= v@.subrange(0, i as int));
            assert(next.last() == v@[i as int]);
            if i == 0 {
                assert(out@ =~= joined_names(next, sep@));
            }
        }
        i = i + 1;
    }
    proof {
        assert(v@.subrange(0, v@.len() as int) =~= v@);
    }
    out
}

/// A binder notation back in source shape: `∃ (x : A), body` for an
/// operand `fun (x : A) => body`; without that shape, the symbol, the
/// names and the body; without a lambda, the symbol alone.
fn render_binder_notation(symbol: &str, operand: &Expr) -> (r: String)
    ensures
        r@ == rendered_binder_notation(symbol@, *operand),
    decreases operand, 4nat,
{
    match operand {
        Expr::Lambda { binders, body, .. } => {
            if binders.len() == 1 && binders[0].ty.is_some() {
                let b = render_binder(&binders[0]);
                let body = render_expr(body);
                let head = concat3(symbol, " ", b.as_str());
                return concat3(head.as_str(), ", ", body.as_str());
            }
            let mut names: Vec<String> = Vec::new();
            let mut i: usize = 0;
            while i < binders.len()
                invariant
                    i <= binders@.len(),
                    names@ == binder_names(binders@.subrange(0, i as int)),
                decreases binders.len() - i,
            {
                names.push(binders[i].name.clone());
                proof {
                    let next = binders@.subrange(0, i + 1);
                    assert(next.drop_last() =~= binders@.subrange(0, i as int));
                    assert(next.last() == binders@[i as int]);
                }
                i = i + 1;
            }
            proof {
                assert(binders@.subrange(0, binders@.len() as int) =~= binders@);
            }
            let names = join_names(&names, " ");
            let body = render_expr(body);
            let head = concat3(symbol, " ", names.as_str());
            concat3(head.as_str(), ", ", body.as_str())
        },
        _ => String::from_str(symbol),
    }
}

/// A pattern back in source syntax; only a sub-pattern that has arguments
/// of its own is parenthesized.
fn render_pattern(pat: &Pattern) -> (r: String)
    ensures
        r@ == rendered_pattern(*pat),
    decreases pat, 0nat,
{
    match pat {
        Pattern::Wild { .. } => String::from_str("_"),
        Pattern::Num { value, .. } => value.clone(),
        Pattern::Ident { name, args, .. } => {
            if args.len() == 0 {
                name.clone()
            } else {
                let inner = render_pattern_args(args);
                concat3(name.as_str(), " ", inner.as_str())
            }
        },
    }
}

fn render_pattern_args(v: &Vec<Pattern>) -> (r: String)
    ensures
        r@ == rendered_pattern_args(v@),
    decreases v, 1nat,
{
    let mut out = String::new();
    let mut i: usize = 0;
    while i < v.len()
        invariant
            i <= v@.len(),
            out@ == rendered_pattern_args(v@.subrange(0, i as int)),
        decreases v.len() - i,
    {
        proof {
            assert(decreases_to!(v => v@));
        }
        if i > 0 {
            out.append(" ");
        }
        let a = &v[i];
        let text = render_pattern(a);
        let wrap = match a {
            Pattern::Ident { args, .. } => args.len() > 0,
            _ => false,
        };
        let text = parenthesize(text, wrap);
        out.append(text.as_str());
        proof {
            let next = v@.subrange(0, i + 1);
            assert(next.subrange(0, i as int) =~= v@.subrange(0, i as int));
            assert(next[i as int] == v@[i as int]);
            if i == 0 {
                assert(out@ =~= rendered_pattern_args(next));
            }
        }
        i = i + 1;
    }
    proof {
        assert(v@.subrange(0, v@.len() as int) =~= v@);
    }
    out
}

fn render_match_arm(arm: &MatchArm) -> (r: String)
    ensures
        r@ == rendered_match_arm(*arm),
    decreases arm, 4nat,
{
    let pattern = render_pattern(&arm.pattern);
    let guard = match &arm.guard {
        Some(g) => {
            let g = render_expr(g);
            concat2(" if ", g.as_str())
        },
        None => String::new(),
    };
    let body = render_expr(&arm.body);
    let head = concat3("| ", pattern.as_str(), guard.as_str());
    concat3(head.as_str(), " => ", body.as_str())
}

fn render_match_arms(v: &Vec<MatchArm>) -> (r: String)
    ensures
        r@ == rendered_match_arms(v@),
    decreases v, 5nat,
{
    let mut out = String::new();
    let mut i: usize = 0;
    while i < v.len()
        invariant
            i <= v@.len(),
            out@ == rendered_match_arms(v@.subrange(0, i as int)),
        decreases v.len() - i,
    {
        proof {
            assert(decreases_to!(v => v@));
        }
        if i > 0 {
            out.append(" ");
        }
        let a = render_match_arm(&v[i]);
        out.append(a.as_str());
        proof {
            let next = v@.subrange(0, i + 1);
            assert(next.subrange(0, i as int) =~= v@.subrange(0, i as int));
            assert(next[i as int] == v@[i as int]);
            if i == 0 {
                assert(out@ =~= rendered_match_arms(next));
            }
        }
        i = i + 1;
    }
    proof {
        assert(v@.subrange(0, v@.len() as int) =~= v@);
    }
    out
}

/// The tactics rendered and joined by `; `.
fn render_tactics(v: &Vec<Tactic>) -> (r: String)
    ensures
        r@ == rendered_tactics(v@),
    decreases v, 5nat,
{
    let mut out = String::new();
    let mut i: usize = 0;
    while i < v.len()
        invariant
            i <= v@.len(),
            out@ == rendered_tactics(v@.subrange(0, i as int)),
        decreases v.len() - i,
    {
        proof {
            assert(decreases_to!(v => v@));
        }
        if i > 0 {
            out.append("; ");
        }
        let t = render_tactic(&v[i]);
        out.append(t.as_str());
        proof {
            let next = v@.subrange(0, i + 1);
            assert(next.subrange(0, i as int) =~= v@.subrange(0, i as int));
            assert(next[i as int] == v@[i as int]);
            if i == 0 {
                assert(out@ =~= rendered_tactics(next));
            }
        }
        i = i + 1;
    }
    proof {
        assert(v@.subrange(0, v@.len() as int) =~= v@);
    }
    out
}

fn render_cases_arm(arm: &CasesArm) -> (r: String)
    ensures
        r@ == rendered_cases_arm(*arm),
    decreases arm, 4nat,
{
    let binders = join_names(&arm.binders, " ");
    let tactics = render_tactics(&arm.tactics);
    let head = concat4("\n  | ", arm.ctor.as_str(), " ", binders.as_str());
    concat3(head.as_str(), " => ", tactics.as_str())
}

fn render_cases_arms(v: &Vec<CasesArm>) -> (r: String)
    ensures
        r@ == rendered_cases_arms(v@),
    decreases v, 5nat,
{
    let mut out = String::new();
    let mut i: usize = 0;
    proof {
        assert(v@.subrange(0, 0) =~= Seq::<CasesArm>::empty());
    }
    while i < v.len()
        invariant
            i <= v@.len(),
            out@ == rendered_cases_arms(v@.subrange(0, i as int)),
        decreases v.len() - i,
    {
        proof {
            assert(decreases_to!(v => v@));
        }
        let a = render_cases_arm(&v[i]);
        out.append(a.as_str());
        proof {
            let next = v@.subrange(0, i + 1);
            assert(next.subrange(0, i as int) =~= v@.subrange(0, i as int));
            assert(next[i as int] == v@[i as int]);
        }
        i = i + 1;
    }
    proof {
        assert(v@.subrange(0, v@.len() as int) =~= v@);
    }
    out
}

fn render_tactic(tactic: &Tactic) -> (r: String)
    ensures
        r@ == rendered_tactic(*tactic),
    decreases tactic, 4nat,
{
    match tactic {
        Tactic::Intro { names, .. } => {
            let n = join_names(names, " ");
            concat2("intro ", n.as_str())
        },
        Tactic::Exact { expr, .. } => {
            let e = render_expr(expr);
            concat2("exact ", e.as_str())
        },
        Tactic::Apply { expr, .. } => {
            let e = render_expr(expr);
            concat2("apply ", e.as_str())
        },
        Tactic::Assumption { .. } => String::from_str("assumption"),
        Tactic::Rfl { .. } => String::from_str("rfl"),
        Tactic::Constructor { .. } => String::from_str("constructor"),
        Tactic::Left { .. } => String::from_str("left"),
        Tactic::Right { .. } => String::from_str("right"),
        Tactic::Use { expr, .. } => {
            let e = render_expr(expr);
            concat2("use ", e.as_str())
        },
        Tactic::Exfalso { .. } => String::from_str("exfalso"),
        Tactic::Cases { expr, arms, .. } => {
            let e = render_expr(expr);
            let arms = render_cases_arms(arms);
            concat3("cases ", e.as_str(), arms.as_str())
        },
        Tactic::Have { name, ty, value, .. } => {
            let value = match value {
                HaveValue::Term(e) => render_expr(e),
                HaveValue::By(ts) => {
                    let t = render_tactics(ts);
                    concat2("by ", t.as_str())
                },
            };
            let ty = render_expr(ty);
            let head = concat4("have ", name.as_str(), " : ", ty.as_str());
            concat3(head.as_str(), " := ", value.as_str())
        },
        Tactic::Sorry { .. } => String::from_str("sorry"),
    }
}

/// An expression back in source syntax, in a form that reads back as the
/// same expression.
pub fn render_expr(expr: &Expr) -> (r: String)
    ensures
        r@ == rendered_expr(*expr),
    decreases expr, 2nat,
{
    match expr {
        Expr::Sort { sort, .. } => match sort {
            SortKind::Prop => String::from_str("Prop"),
            SortKind::Type => String::from_str("Type"),
            SortKind::Sort(n) => {
                let d = decimal_string(*n);
                concat2("Sort ", d.as_str())
            },
            SortKind::Level(name) => {
                // Level arithmetic is parenthesized so that it reads back
                // unambiguously.
                if contains_char(name.as_str(), '+') {
                    concat3("Sort (", name.as_str(), ")")
                } else {
                    concat2("Sort ", name.as_str())
                }
            },
        },
        Expr::Ident { name, .. } => name.clone(),
        Expr::UniverseApp { name, levels, .. } => {
            let l = join_names(levels, ", ");
            concat4(name.as_str(), ".{", l.as_str(), "}")
        },
        Expr::Num { value, .. } => value.clone(),
        Expr::Hole { .. } => String::from_str("sorry"),
        Expr::App { fun, arg, explicit_spine, .. } => {
            if *explicit_spine {
                let head = render_spine(fun);
                let a = render_atom(arg);
                return concat3(head.as_str(), " ", a.as_str());
            }
            let f = render_fun_position(fun);
            let a = render_atom(arg);
            concat3(f.as_str(), " ", a.as_str())
        },
        Expr::Lambda { binders, body, .. } => {
            let prefix = render_binders(binders);
            let b = render_expr(body);
            concat4("fun ", prefix.as_str(), " => ", b.as_str())
        },
        Expr::Forall { binders, body, .. } => {
            // A group of binders becomes a chain of single arrows, which
            // reads back.
            let text = render_expr(body);
            arrow_chain(binders, text)
        },
        Expr::Arrow { domain, codomain, .. } => {
            let d = render_fun_position(domain);
            let c = render_expr(codomain);
            concat3(d.as_str(), " -> ", c.as_str())
        },
        Expr::Plus { lhs, rhs, .. } => {
            let l = render_expr(lhs);
            let r = render_expr(rhs);
            concat3(l.as_str(), " + ", r.as_str())
        },
        Expr::Let { binder, val, body, .. } => {
            let v = render_expr(val);
            let b = render_expr(body);
            match &binder.ty {
                Some(ty) => {
                    let t = render_expr(ty);
                    let head = concat4("let ", binder.name.as_str(), " : ", t.as_str());
                    let mid = concat3(head.as_str(), " := ", v.as_str());
                    concat3(mid.as_str(), "; ", b.as_str())
                },
                None => {
                    let head = concat4("let ", binder.name.as_str(), " := ", v.as_str());
                    concat3(head.as_str(), "; ", b.as_str())
                },
            }
        },
        Expr::By { tactics, .. } => {
            let inner = render_tactics(tactics);
            concat2("by ", inner.as_str())
        },
        Expr::Match { scrutinee, arms, .. } => {
            let s = render_expr(scrutinee);
            let a = render_match_arms(arms);
            concat4("match ", s.as_str(), " with ", a.as_str())
        },
        Expr::Notation { symbol, assoc, lhs, rhs, .. } => {
            match (assoc, lhs, rhs) {
                (NotationAssoc::Prefix, _, Some(operand)) => {
                    let o = render_atom(operand);
                    concat3(symbol.as_str(), " ", o.as_str())
                },
                (NotationAssoc::Postfix, Some(operand), _) => {
                    let o = render_atom(operand);
                    concat3(o.as_str(), " ", symbol.as_str())
                },
                (NotationAssoc::Binder, _, Some(operand)) => {
                    render_binder_notation(symbol.as_str(), operand)
                },
                (_, Some(l), Some(r)) => {
                    let l = render_atom(l);
                    let r = render_atom(r);
                    let head = concat3(l.as_str(), " ", symbol.as_str());
                    concat3(head.as_str(), " ", r.as_str())
                },
                _ => symbol.clone(),
            }
        },
        Expr::SetLiteral { elements, .. } => {
            let inner = render_list(elements, ", ");
            concat3("{", inner.as_str(), "}")
        },
        Expr::AnonCtor { elements, .. } => {
            let inner = render_list(elements, ", ");
            concat3("⟨", inner.as_str(), "⟩")
        },
    }
}

// ---------------------------------------------------------------------------
// Peeling binders off a type.
// ---------------------------------------------------------------------------

/// How many binder layers `ty` has on its outside (each binder of a `∀`
/// group counts, an arrow counts one).
pub open spec fn pi_layers(ty: Expr) -> nat
    decreases ty,
{
    match ty {
        Expr::Forall { binders, body, .. } => if binders@.len() > 0 {
            binders@.len() + pi_layers(*body)
        } else {
            0
        },
        Expr::Arrow { codomain, .. } => 1 + pi_layers(*codomain),
        _ => 0,
    }
}

/// The text of `ty` without its `n` outermost binder layers (the rest of a
/// `∀` group stays together in front of the body).
pub open spec fn peeled_text(ty: Expr, n: nat) -> Seq<char>
    decreases ty,
{
    if n == 0 {
        rendered_expr(ty)
    } else {
        match ty {
            Expr::Forall { binders, body, .. } => if binders@.len() == 0 {
                Seq::empty()
            } else if binders@.len() >= n {
                arrow_chained(binders@.subrange(n as int, binders@.len() as int), rendered_expr(*body))
            } else {
                peeled_text(*body, (n - binders@.len()) as nat)
            },
            Expr::Arrow { codomain, .. } => peeled_text(*codomain, (n - 1) as nat),
            _ => Seq::empty(),
        }
    }
}

/// `ty` without its `n` outermost binder layers; `None` when it has fewer.
pub fn peel_pi_layers(ty: &Expr, n: usize) -> (r: Option<Expr>)
    ensures
        r is Some <==> n <= pi_layers(*ty),
        r matches Some(e) ==> rendered_expr(e) == peeled_text(*ty, n as nat),
    decreases ty,
{
    if n == 0 {
        return Some(clone_expr(ty));
    }
    match ty {
        Expr::Forall { binders, body, .. } => {
            if binders.len() == 0 {
                return None;
            }
            if binders.len() >= n {
                if binders.len() == n {
                    proof {
                        assert(binders@.subrange(n as int, binders@.len() as int) =~= Seq::<Binder>::empty());
                    }
                    Some(clone_expr(body))
                } else {
                    // The remaining binders of the same group stay together.
                    let mut rest: Vec<Binder> = Vec::new();
                    let mut i: usize = n;
                    while i < binders.len()
                        invariant
                            n <= i <= binders@.len(),
                            binders_alike(rest@, binders@.subrange(n as int, i as int)),
                        decreases binders.len() - i,
                    {
                        let b = clone_binder(&binders[i]);
                        proof {
                            let a = binders@.subrange(n as int, i + 1);
                            assert(a[a.len() - 1] == binders@[i as int]);
                            assert forall|k: int| 0 <= k < a.len() - 1 implies a[k] == binders@.subrange(n as int, i as int)[k] by {}
                        }
                        rest.push(b);
                        i = i + 1;
                    }
                    let body_copy = clone_expr(body);
                    proof {
                        lemma_binders_alike(rest@, binders@.subrange(n as int, binders@.len() as int), rendered_expr(body_copy));
                    }
                    Some(Expr::Forall { binders: rest, body: Box::new(body_copy), span: zero_span() })
                }
            } else {
                peel_pi_layers(body, n - binders.len())
            }
        },
        Expr::Arrow { codomain, .. } => peel_pi_layers(codomain, n - 1),
        _ => None,
    }
}

/// The draft as a checkable `example`: `extra_decls`, then
/// `example : <goal_source> := <term>`.
pub fn render_lambda_for_example(state: &ProofState, goal_source: &str, extra_decls: &str) -> (r:
    String)
    ensures
        r@ == extra_decls@ + "\nexample : "@ + goal_source@ + " := "@ + lambda_chained(
            state.spec_binders(),
            solution_text(state.spec_solution()),
        ),
{
    let term = state.lambda_text();
    let head = concat4(extra_decls, "\nexample : ", goal_source, " := ");
    let r = concat2(head.as_str(), term.as_str());
    proof {
        assert(r@ == extra_decls@ + "\nexample : "@ + goal_source@ + " := "@ + term@);
    }
    r
}

} // verus!
