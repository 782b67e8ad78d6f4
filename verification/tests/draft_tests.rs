use front::draft::ProofState;

#[test]
fn intro_builds_lambda_text() {
    let mut p = ProofState::start("{a : Prop} -> a -> a").unwrap();
    p.intro("a").unwrap();
    assert_eq!(p.goal_text(), "a -> a");
    assert_eq!(p.lambda_text(), "fun {a : Prop} => sorry");
    p.intro("h").unwrap();
    assert_eq!(p.lambda_text(), "fun {a : Prop} => fun (h : a) => sorry");
}

#[test]
fn exact_fills_the_hole() {
    let mut p = ProofState::start("{a : Prop} -> a -> a").unwrap();
    p.intro("a").unwrap();
    p.intro("h").unwrap();
    p.exact("h").unwrap();
    assert_eq!(p.lambda_text(), "fun {a : Prop} => fun (h : a) => h");
    assert!(p.done());
}

#[test]
fn undo_walks_back_through_intros_to_the_initial_state() {
    let mut p = ProofState::start("(a : Prop) -> a -> a").unwrap();
    let initial_goal = p.goal_text();
    let initial_lambda = p.lambda_text();
    let initial_binders = p.binders().to_vec();
    // 空栈：没有可撤销的步。
    assert!(!p.undo());
    p.intro("a").unwrap();
    p.intro("h").unwrap();
    assert_eq!(p.goal_text(), "a");
    assert!(p.undo());
    assert_eq!(p.goal_text(), "a -> a");
    assert_eq!(p.lambda_text(), "fun (a : Prop) => sorry");
    assert_eq!(p.binders().len(), 1);
    assert!(p.undo());
    assert_eq!(p.goal_text(), initial_goal);
    assert_eq!(p.lambda_text(), initial_lambda);
    assert_eq!(p.binders().to_vec(), initial_binders);
    // 第三次：栈已空。
    assert!(!p.undo());
}

#[test]
fn undo_after_exact_restores_the_open_hole() {
    let mut p = ProofState::start("(a : Prop) -> a -> a").unwrap();
    p.intro("a").unwrap();
    p.intro("h").unwrap();
    p.exact("h").unwrap();
    assert!(p.done());
    assert!(p.undo());
    assert!(!p.done());
    assert_eq!(p.lambda_text(), "fun (a : Prop) => fun (h : a) => sorry");
    assert!(p.undo());
    assert_eq!(p.lambda_text(), "fun (a : Prop) => sorry");
    assert!(p.undo());
    assert_eq!(p.lambda_text(), "sorry");
    assert!(!p.undo());
}
