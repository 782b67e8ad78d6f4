//! The state under the cursor (the `goalsAt?` rule): which of a
//! declaration's per-tactic states an editor shows for a cursor offset.
use crate::span::Span;
use vstd::prelude::*;

verus! {

/// One hypothesis of a goal: its name and its rendered type.
pub struct Hypothesis {
    pub name: String,
    pub ty: String,
}

/// A goal: its rendered type and the hypotheses in scope.
pub struct ByGoalState {
    pub ty: String,
    pub binders: Vec<Hypothesis>,
}

/// The state after one tactic of a `by` block: the tactic's span and the
/// goals left.
pub struct ByStep {
    pub span: Span,
    pub goals: Vec<ByGoalState>,
}

/// What the selection reads of a checked declaration: its span, its own
/// remaining goal and context, its type as rendered by the kernel, and
/// the state after each tactic of its `by` block (none without one).
pub struct DeclSteps {
    pub span: Span,
    pub goal: Option<String>,
    pub binders: Vec<Hypothesis>,
    pub ty_text: Option<String>,
    pub by_steps: Vec<ByStep>,
}

/// The selected state: its goals, its span, its step (`-1`: the root
/// state) and the number of steps.
pub struct StateSelection {
    pub goals: Vec<ByGoalState>,
    pub span: Option<Span>,
    pub step: i64,
    pub total: usize,
}

/// A hypothesis as text.
pub open spec fn hyp_view(h: Hypothesis) -> (Seq<char>, Seq<char>) {
    (h.name@, h.ty@)
}

pub open spec fn hyps_view(v: Seq<Hypothesis>) -> Seq<(Seq<char>, Seq<char>)> {
    v.map_values(|h: Hypothesis| hyp_view(h))
}

/// A goal as text: its type and its hypotheses.
pub open spec fn goal_view(g: ByGoalState) -> (Seq<char>, Seq<(Seq<char>, Seq<char>)>) {
    (g.ty@, hyps_view(g.binders@))
}

pub open spec fn goals_view(v: Seq<ByGoalState>) -> Seq<(Seq<char>, Seq<(Seq<char>, Seq<char>)>)> {
    v.map_values(|g: ByGoalState| goal_view(g))
}

/// The cursor lies in the half-open span of step `i` (at its end it is
/// after the step, not inside it).
pub open spec fn inside_step(steps: Seq<ByStep>, i: int, cursor: int) -> bool {
    steps[i].span.start.offset <= cursor && cursor < steps[i].span.end.offset
}

/// The step ends at or before the cursor.
pub open spec fn ended_step(steps: Seq<ByStep>, i: int, cursor: int) -> bool {
    steps[i].span.end.offset <= cursor
}

/// The first step from `k` on whose span holds the cursor.
pub open spec fn first_inside(steps: Seq<ByStep>, cursor: int, k: int) -> Option<int>
    decreases steps.len() - k,
{
    if k < 0 || k >= steps.len() {
        None
    } else if inside_step(steps, k, cursor) {
        Some(k)
    } else {
        first_inside(steps, cursor, k + 1)
    }
}

/// The last of the first `k` steps that ends at or before the cursor.
pub open spec fn last_ended(steps: Seq<ByStep>, cursor: int, k: int) -> Option<int>
    decreases k,
{
    if k <= 0 || k > steps.len() {
        None
    } else if ended_step(steps, k - 1, cursor) {
        Some(k - 1)
    } else {
        last_ended(steps, cursor, k - 1)
    }
}

proof fn lemma_first_inside_range(steps: Seq<ByStep>, cursor: int, k: int)
    requires
        k >= 0,
    ensures
        first_inside(steps, cursor, k) matches Some(i) ==> k <= i < steps.len(),
    decreases steps.len() - k,
{
    if k < steps.len() && !inside_step(steps, k, cursor) {
        lemma_first_inside_range(steps, cursor, k + 1);
    }
}

proof fn lemma_last_ended_range(steps: Seq<ByStep>, cursor: int, k: int)
    ensures
        last_ended(steps, cursor, k) matches Some(i) ==> 0 <= i < k <= steps.len(),
    decreases k,
{
    if 0 < k <= steps.len() && !ended_step(steps, k - 1, cursor) {
        lemma_last_ended_range(steps, cursor, k - 1);
    }
}

proof fn lemma_first_inside_finds(steps: Seq<ByStep>, cursor: int, k: int, i: int)
    requires
        0 <= k <= i < steps.len(),
        inside_step(steps, i, cursor),
        forall|j: int| k <= j < i ==> !inside_step(steps, j, cursor),
    ensures
        first_inside(steps, cursor, k) == Some(i),
    decreases i - k,
{
    if k < i {
        lemma_first_inside_finds(steps, cursor, k + 1, i);
    }
}

proof fn lemma_first_inside_none(steps: Seq<ByStep>, cursor: int, k: int)
    requires
        0 <= k,
        forall|j: int| k <= j < steps.len() ==> !inside_step(steps, j, cursor),
    ensures
        first_inside(steps, cursor, k) is None,
    decreases steps.len() - k,
{
    if k < steps.len() {
        lemma_first_inside_none(steps, cursor, k + 1);
    }
}

proof fn lemma_last_ended_finds(steps: Seq<ByStep>, cursor: int, k: int, i: int)
    requires
        0 <= i < k <= steps.len(),
        ended_step(steps, i, cursor),
        forall|j: int| i < j < k ==> !ended_step(steps, j, cursor),
    ensures
        last_ended(steps, cursor, k) == Some(i),
    decreases k,
{
    if k - 1 > i {
        lemma_last_ended_finds(steps, cursor, k - 1, i);
    }
}

proof fn lemma_last_ended_none(steps: Seq<ByStep>, cursor: int, k: int)
    requires
        k <= steps.len(),
        forall|j: int| 0 <= j < k ==> !ended_step(steps, j, cursor),
    ensures
        last_ended(steps, cursor, k) is None,
    decreases k,
{
    if k > 0 {
        lemma_last_ended_none(steps, cursor, k - 1);
    }
}

/// Which state the cursor selects. A cursor inside a tactic's half-open
/// span (`start <= cursor < end`, the first such tactic `i`) shows the
/// state before that tactic: step `i - 1`, the root state (`-1`) for the
/// first tactic. Inside none, it shows the state after the last tactic that
/// ended at or before the cursor; before every tactic's end, the root state.
pub proof fn lemma_cursor_selects_step(steps: Seq<ByStep>, cursor: int, i: int)
    ensures
        0 <= i < steps.len() && steps[i].span.start.offset <= cursor && cursor
            < steps[i].span.end.offset && (forall|j: int|
            0 <= j < i ==> !(steps[j].span.start.offset <= cursor && cursor
                < steps[j].span.end.offset)) ==> selected_step(steps, cursor) == i - 1,
        (forall|j: int|
            0 <= j < steps.len() ==> !(steps[j].span.start.offset <= cursor && cursor
                < steps[j].span.end.offset)) && 0 <= i < steps.len() && steps[i].span.end.offset
            <= cursor && (forall|j: int| i < j < steps.len() ==> cursor
            < steps[j].span.end.offset) ==> selected_step(steps, cursor) == i,
        (forall|j: int|
            0 <= j < steps.len() ==> !(steps[j].span.start.offset <= cursor && cursor
                < steps[j].span.end.offset)) && (forall|j: int|
            0 <= j < steps.len() ==> cursor < steps[j].span.end.offset) ==> selected_step(
            steps,
            cursor,
        ) == -1,
{
    if 0 <= i < steps.len() && inside_step(steps, i, cursor) && (forall|j: int|
        0 <= j < i ==> !(steps[j].span.start.offset <= cursor && cursor
            < steps[j].span.end.offset)) {
        lemma_first_inside_finds(steps, cursor, 0, i);
    }
    if forall|j: int|
        0 <= j < steps.len() ==> !(steps[j].span.start.offset <= cursor && cursor
            < steps[j].span.end.offset) {
        lemma_first_inside_none(steps, cursor, 0);
        if 0 <= i < steps.len() && ended_step(steps, i, cursor) && (forall|j: int|
            i < j < steps.len() ==> cursor < steps[j].span.end.offset) {
            lemma_last_ended_finds(steps, cursor, steps.len() as int, i);
        }
        if forall|j: int| 0 <= j < steps.len() ==> cursor < steps[j].span.end.offset {
            lemma_last_ended_none(steps, cursor, steps.len() as int);
        }
    }
}

/// The selected step: inside a tactic, the state before it (the previous
/// step's, `-1` before the first); otherwise the state after the last
/// tactic that ended before the cursor, `-1` when none did.
pub open spec fn selected_step(steps: Seq<ByStep>, cursor: int) -> int {
    match first_inside(steps, cursor, 0) {
        Some(i) => i - 1,
        None => match last_ended(steps, cursor, steps.len() as int) {
            Some(i) => i,
            None => -1,
        },
    }
}

/// Before the first tactic the state shows the declaration's type as the
/// kernel renders it, whatever goal remains; the remaining goal only where
/// that rendering is unknown.
pub proof fn lemma_root_state_shows_the_declaration_type(d: DeclSteps)
    ensures
        d.ty_text matches Some(t) ==> root_goal(d) == Some(t@),
        d.ty_text is None ==> root_goal(d) == match d.goal {
            Some(g) => Some(g@),
            None => None::<Seq<char>>,
        },
{
}

/// The root state's goal text: the kernel's rendering of the type, else
/// the remaining goal.
pub open spec fn root_goal(d: DeclSteps) -> Option<Seq<char>> {
    match d.ty_text {
        Some(t) => Some(t@),
        None => match d.goal {
            Some(g) => Some(g@),
            None => None,
        },
    }
}

fn clone_hypotheses(v: &Vec<Hypothesis>) -> (r: Vec<Hypothesis>)
    ensures
        hyps_view(r@) == hyps_view(v@),
{
    let mut out: Vec<Hypothesis> = Vec::new();
    let mut i: usize = 0;
    while i < v.len()
        invariant
            i <= v@.len(),
            out@.len() == i,
            forall|j: int| 0 <= j < i ==> hyp_view(#[trigger] out@[j]) == hyp_view(v@[j]),
        decreases v.len() - i,
    {
        out.push(Hypothesis { name: v[i].name.clone(), ty: v[i].ty.clone() });
        i = i + 1;
    }
    assert(hyps_view(out@) =~= hyps_view(v@));
    out
}

fn clone_goal_states(v: &Vec<ByGoalState>) -> (r: Vec<ByGoalState>)
    ensures
        goals_view(r@) == goals_view(v@),
{
    let mut out: Vec<ByGoalState> = Vec::new();
    let mut i: usize = 0;
    while i < v.len()
        invariant
            i <= v@.len(),
            out@.len() == i,
            forall|j: int| 0 <= j < i ==> goal_view(#[trigger] out@[j]) == goal_view(v@[j]),
        decreases v.len() - i,
    {
        out.push(ByGoalState { ty: v[i].ty.clone(), binders: clone_hypotheses(&v[i].binders) });
        i = i + 1;
    }
    assert(goals_view(out@) =~= goals_view(v@));
    out
}

/// The index of the first step whose span holds the cursor.
fn find_inside(steps: &Vec<ByStep>, cursor: usize) -> (r: Option<usize>)
    ensures
        match first_inside(steps@, cursor as int, 0) {
            Some(i) => r == Some(i as usize),
            None => r is None,
        },
{
    let mut k: usize = 0;
    while k < steps.len()
        invariant
            k <= steps@.len(),
            first_inside(steps@, cursor as int, k as int) == first_inside(steps@, cursor as int, 0),
        decreases steps.len() - k,
    {
        if steps[k].span.start.offset <= cursor && cursor < steps[k].span.end.offset {
            return Some(k);
        }
        k = k + 1;
    }
    None
}

/// The index of the last step that ends at or before the cursor.
fn find_last_ended(steps: &Vec<ByStep>, cursor: usize) -> (r: Option<usize>)
    ensures
        match last_ended(steps@, cursor as int, steps@.len() as int) {
            Some(i) => r == Some(i as usize),
            None => r is None,
        },
{
    let mut k: usize = steps.len();
    while k > 0
        invariant
            k <= steps@.len(),
            last_ended(steps@, cursor as int, k as int) == last_ended(steps@, cursor as int, steps@.len() as int),
        decreases k,
    {
        if steps[k - 1].span.end.offset <= cursor {
            return Some(k - 1);
        }
        k = k - 1;
    }
    None
}

/// The state at `cursor` in declaration `d` (the `goalsAt?` rule):
/// - without a `by` block: the declaration's own remaining goal and
///   context, step `-1`, no steps;
/// - inside a tactic's half-open span: the state before that tactic;
///   otherwise the state after the last tactic that ended before the
///   cursor;
/// - before the first tactic: the root state, the declaration's type with
///   no hypotheses and the declaration's span, step `-1`.
pub fn select_state_at(d: &DeclSteps, cursor: usize) -> (r: StateSelection)
    requires
        d.by_steps@.len() <= i64::MAX,
    ensures
        d.by_steps@.len() == 0 ==> {
            &&& goals_view(r.goals@) == match d.goal {
                Some(g) => seq![(g@, hyps_view(d.binders@))],
                None => Seq::empty(),
            }
            &&& r.span == Some(d.span)
            &&& r.step == -1
            &&& r.total == 0
        },
        d.by_steps@.len() > 0 ==> {
            let s = selected_step(d.by_steps@, cursor as int);
            &&& r.total == d.by_steps@.len()
            &&& r.step == if s >= 0 {
                s
            } else {
                -1
            }
            &&& s >= 0 ==> goals_view(r.goals@) == goals_view(d.by_steps@[s].goals@) && r.span == Some(
                d.by_steps@[s].span,
            )
            &&& s < 0 ==> goals_view(r.goals@) == match root_goal(*d) {
                Some(t) => seq![(t, Seq::<(Seq<char>, Seq<char>)>::empty())],
                None => Seq::empty(),
            } && r.span == Some(d.span)
        },
        d.by_steps@.len() > 0 && selected_step(d.by_steps@, cursor as int) < 0 && d.ty_text is Some ==> r.goals@.len()
            == 1 && r.goals@[0].ty@ == d.ty_text->Some_0@ && r.goals@[0].binders@.len() == 0,
        d.by_steps@.len() > 0 && selected_step(d.by_steps@, cursor as int) < 0 && d.ty_text is None
            && d.goal is Some ==> r.goals@.len() == 1 && r.goals@[0].ty@ == d.goal->Some_0@,
{
    let n = d.by_steps.len();
    if n == 0 {
        let mut goals: Vec<ByGoalState> = Vec::new();
        match &d.goal {
            Some(g) => {
                goals.push(ByGoalState { ty: g.clone(), binders: clone_hypotheses(&d.binders) });
                proof {
                    assert(goals_view(goals@) =~= seq![(g@, hyps_view(d.binders@))]);
                }
            },
            None => {
                proof {
                    assert(goals_view(goals@) =~= Seq::empty());
                }
            },
        }
        return StateSelection { goals, span: Some(d.span), step: -1, total: 0 };
    }
    let selected: Option<usize> = match find_inside(&d.by_steps, cursor) {
        Some(i) => if i == 0 {
            None
        } else {
            Some(i - 1)
        },
        None => find_last_ended(&d.by_steps, cursor),
    };
    proof {
        let s = selected_step(d.by_steps@, cursor as int);
        lemma_first_inside_range(d.by_steps@, cursor as int, 0);
        lemma_last_ended_range(d.by_steps@, cursor as int, n as int);
        assert(s < n);
        assert(match selected {
            Some(i) => s == i,
            None => s < 0,
        });
    }
    match selected {
        Some(step) => {
            let s = &d.by_steps[step];
            StateSelection {
                goals: clone_goal_states(&s.goals),
                span: Some(s.span),
                step: step as i64,
                total: n,
            }
        },
        None => {
            let ty = match &d.ty_text {
                Some(t) => Some(t.clone()),
                None => match &d.goal {
                    Some(g) => Some(g.clone()),
                    None => None,
                },
            };
            let mut goals: Vec<ByGoalState> = Vec::new();
            match ty {
                Some(t) => {
                    let ghost tv = t@;
                    goals.push(ByGoalState { ty: t, binders: Vec::new() });
                    proof {
                        assert(hyps_view(goals@[0].binders@) =~= Seq::<(Seq<char>, Seq<char>)>::empty());
                        assert(goals_view(goals@) =~= seq![(tv, Seq::<(Seq<char>, Seq<char>)>::empty())]);
                    }
                },
                None => {
                    proof {
                        assert(goals_view(goals@) =~= Seq::empty());
                    }
                },
            }
            StateSelection { goals, span: Some(d.span), step: -1, total: n }
        },
    }
}

} // verus!
