//! The state under the cursor.

use front::query::{status_str, DeclStatus};
use front::span::{Pos, Span};
use front::state::{select_state_at, ByGoalState, ByStep, DeclSteps, Hypothesis};

fn span(a: usize, b: usize) -> Span {
    Span::new(
        Pos { offset: a, line: 1, column: a + 1 },
        Pos { offset: b, line: 1, column: b + 1 },
    )
}

fn goal(ty: &str, hyps: &[(&str, &str)]) -> ByGoalState {
    ByGoalState {
        ty: ty.to_string(),
        binders: hyps
            .iter()
            .map(|(n, t)| Hypothesis { name: n.to_string(), ty: t.to_string() })
            .collect(),
    }
}

fn decl_with_steps() -> DeclSteps {
    // by intro h; exact h  — tactics at [10, 17) and [19, 26).
    DeclSteps {
        span: span(0, 26),
        goal: None,
        binders: Vec::new(),
        ty_text: Some("a -> a".to_string()),
        by_steps: vec![
            ByStep { span: span(10, 17), goals: vec![goal("a", &[("h", "a")])] },
            ByStep { span: span(19, 26), goals: Vec::new() },
        ],
    }
}

#[test]
fn before_the_first_tactic_is_the_root_state() {
    let d = decl_with_steps();
    let s = select_state_at(&d, 3);
    assert_eq!(s.step, -1);
    assert_eq!(s.total, 2);
    assert_eq!(s.span, Some(d.span));
    assert_eq!(s.goals.len(), 1);
    assert_eq!(s.goals[0].ty, "a -> a");
    assert!(s.goals[0].binders.is_empty());
}

#[test]
fn inside_a_tactic_is_the_state_before_it() {
    let d = decl_with_steps();
    // Inside the first tactic: still the root state.
    assert_eq!(select_state_at(&d, 12).step, -1);
    // Inside the second tactic: the state after the first.
    let s = select_state_at(&d, 20);
    assert_eq!(s.step, 0);
    assert_eq!(s.span, Some(span(10, 17)));
    assert_eq!(s.goals[0].ty, "a");
    assert_eq!(s.goals[0].binders[0].name, "h");
}

#[test]
fn at_the_end_of_a_tactic_is_after_it() {
    let d = decl_with_steps();
    // The span is half-open: offset 17 is past the first tactic.
    let s = select_state_at(&d, 17);
    assert_eq!(s.step, 0);
    let s = select_state_at(&d, 26);
    assert_eq!(s.step, 1);
    assert!(s.goals.is_empty());
}

#[test]
fn without_a_by_block_the_declaration_goal_is_shown() {
    let d = DeclSteps {
        span: span(0, 30),
        goal: Some("b".to_string()),
        binders: vec![Hypothesis { name: "x".to_string(), ty: "b".to_string() }],
        ty_text: Some("b -> b".to_string()),
        by_steps: Vec::new(),
    };
    let s = select_state_at(&d, 5);
    assert_eq!((s.step, s.total), (-1, 0));
    assert_eq!(s.goals.len(), 1);
    assert_eq!(s.goals[0].ty, "b");
    assert_eq!(s.goals[0].binders[0].ty, "b");
    let closed = DeclSteps { goal: None, ..d };
    assert!(select_state_at(&closed, 5).goals.is_empty());
}

#[test]
fn declaration_states_have_stable_texts() {
    assert_eq!(status_str(DeclStatus::Checked), "checked");
    assert_eq!(status_str(DeclStatus::Open), "open");
    assert_eq!(status_str(DeclStatus::Failed), "failed");
}
