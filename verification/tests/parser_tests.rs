use front::ast::{
    Binder, BinderKind, CasesArm, Command, Expr, HaveValue, MatchArm, NotationAssoc, OpenFilter,
    Pattern, SortKind, Tactic,
};
use front::diagnostic::DiagnosticKind;
use front::parser::{parse, parse_fragment};

#[test]
fn parses_def_check_and_hole() {
    let src = r#"
def id : Prop -> Prop := fun (x : Prop) => x
#check id
example : Prop -> Prop := sorry
"#;
    let file = parse(src).unwrap();
    assert_eq!(file.commands.len(), 3);
    assert!(matches!(&file.commands[0], Command::Def { name, .. } if name == "id"));
    assert!(matches!(&file.commands[1], Command::Check { .. }));
    assert!(
        matches!(&file.commands[2], Command::Example { val, .. } if matches!(val, Expr::Hole { .. }))
    );
}

#[test]
fn decl_binders_desugar_to_forall_and_lambda() {
    let file = parse("theorem t (a : Prop) (b : Prop) : Prop := b\n").unwrap();
    let Command::Theorem { ty, val, .. } = &file.commands[0] else {
        panic!("expected theorem");
    };
    let Expr::Forall {
        binders: tbinders, ..
    } = ty
    else {
        panic!("expected Forall type, got {ty:?}");
    };
    assert_eq!(tbinders.len(), 2);
    assert_eq!(tbinders[0].name, "a");
    assert_eq!(tbinders[1].name, "b");
    let Expr::Lambda {
        binders: vbinders, ..
    } = val
    else {
        panic!("expected Lambda value, got {val:?}");
    };
    assert_eq!(vbinders.len(), 2);
}

#[test]
fn untyped_decl_binder_is_a_parse_error() {
    let err = parse("theorem t (a) : Prop := Prop\n").unwrap_err();
    assert!(
        err.message.contains("显式类型"),
        "teaching message expected, got {err:?}"
    );
}

#[test]
fn universe_params_before_decl_binders_parse() {
    let file = parse("def id {u} (A : Sort u) (x : A) : A := x\n").unwrap();
    let Command::Def { universe, ty, .. } = &file.commands[0] else {
        panic!("expected def");
    };
    assert_eq!(universe, &vec!["u".to_string()]);
    let Expr::Forall { binders, .. } = ty else {
        panic!("expected Forall type, got {ty:?}");
    };
    assert_eq!(binders.len(), 2);
    assert_eq!(binders[0].name, "A");
}

#[test]
fn example_with_decl_binders_parses() {
    let file = parse("example (a : Prop) : a -> a := fun (h : a) => h\n").unwrap();
    assert!(matches!(
        &file.commands[0],
        Command::Example {
            ty: Expr::Forall { binders, .. },
            ..
        } if binders.len() == 1
    ));
}

#[test]
fn reports_diagnostic_with_span() {
    let err = parse("def broken : Prop :=\n").unwrap_err();
    assert_eq!(err.span.start.line, 2, "err: {err:?}");
}

#[test]
fn type_with_level_parses_as_sort_succ() {
    // Lean 记法：`Type n` = `Sort (n + 1)`；单独的 `Type` 仍是 `Sort 1`。
    let file = parse("axiom T : Type 2\naxiom U : Type\n").unwrap();
    assert!(matches!(
        &file.commands[0],
        Command::Axiom {
            ty: Expr::Sort {
                sort: SortKind::Sort(3),
                ..
            },
            ..
        }
    ));
    assert!(matches!(
        &file.commands[1],
        Command::Axiom {
            ty: Expr::Sort {
                sort: SortKind::Type,
                ..
            },
            ..
        }
    ));
}

#[test]
fn level_arithmetic_parses_in_sort_and_universe_args() {
    // 层级算术（设计 `docs/design/type-level-syntax.md` §5）：
    // `Sort (u+1)`、`Sort u+1`、`Type (u+1)`、`Eq.{u+1}` 都产出层级文本。
    let file = parse(
        "axiom A {u} : Sort (u+1)\n\
         axiom B {u} : Sort u+1\n\
         axiom C {u} : Type (u+1)\n\
         axiom D {u} : Eq.{u+1} (Sort u) Prop Prop\n",
    )
    .unwrap();
    let sort_of = |i: usize| match &file.commands[i] {
        Command::Axiom {
            ty: Expr::Sort { sort, .. },
            ..
        } => sort.clone(),
        other => panic!("expected Sort at {i}: {other:?}"),
    };
    assert_eq!(sort_of(0), SortKind::Level("u+1".to_string()));
    // `Sort u+1` 与 `Sort (u+1)` 逐字同形（层级文本规范化掉空白）。
    assert_eq!(sort_of(1), SortKind::Level("u+1".to_string()));
    // `Type (u+1)` = `Sort (u+1+1)`。
    assert_eq!(sort_of(2), SortKind::Level("u+1+1".to_string()));
    let Command::Axiom { ty, .. } = &file.commands[3] else {
        panic!("expected axiom");
    };
    let Expr::UniverseApp { levels, .. } = app_head(ty) else {
        panic!("expected UniverseApp head, got {ty:?}");
    };
    assert_eq!(levels, &["u+1".to_string()]);
}

#[test]
fn level_arithmetic_keeps_plain_forms_byte_identical() {
    // 既有拼写的 AST 逐字不变：`Sort 3` 仍是 `SortKind::Sort(3)`、
    // `Sort u` 仍是 `SortKind::Level("u")`、`Type 2` 仍是 `Sort(3)`。
    let file = parse("axiom A : Sort 3\naxiom B {u} : Sort u\naxiom C : Type 2\n").unwrap();
    let sort_of = |i: usize| match &file.commands[i] {
        Command::Axiom {
            ty: Expr::Sort { sort, .. },
            ..
        } => sort.clone(),
        other => panic!("expected Sort at {i}: {other:?}"),
    };
    assert_eq!(sort_of(0), SortKind::Sort(3));
    assert_eq!(sort_of(1), SortKind::Level("u".to_string()));
    assert_eq!(sort_of(2), SortKind::Sort(3));
    // `Type` 后跟**裸标识符**仍是应用（`Eq.refl.{2} Type A` 的既有写法）：
    // `Type` 只吃数字或括号开头的层级（设计 §5 的边界）。
    let file = parse("axiom T : Prop -> Prop\n#check T Type A\n").unwrap();
    let Command::Check { expr, .. } = &file.commands[1] else {
        panic!("expected #check");
    };
    assert!(
        matches!(expr, Expr::App { .. }),
        "`Type A` must stay an application, got {expr:?}"
    );
}

#[test]
fn level_arithmetic_rejects_non_numeric_suffix() {
    // `+` 右边只收数字（Lean 的 `u+n`）：`u+v`/`max` 不在语法面内，
    // 报专用诊断而不是静默吞掉（内核 `Level::Max` 无公开构造入口）。
    for src in [
        "axiom A {u, v} : Sort (u+v)\n",
        "axiom A {u, v} : Eq.{u+v} Prop Prop Prop\n",
    ] {
        let err = parse(src).unwrap_err();
        assert!(
            err.message.contains("层级加法只收数字后缀"),
            "{src:?} → {err:?}"
        );
    }
}

#[test]
fn named_arrow_parses_as_forall_with_binder() {
    let file = parse("#check (x : Prop) -> x\n").unwrap();
    let Command::Check { expr, .. } = &file.commands[0] else {
        panic!("expected #check");
    };
    let Expr::Forall { binders, body, .. } = expr else {
        panic!("expected Forall, got {expr:?}");
    };
    assert_eq!(binders.len(), 1);
    assert_eq!(binders[0].name, "x");
    assert_eq!(binders[0].style, BinderKind::Explicit);
    assert!(matches!(
        binders[0].ty.as_deref(),
        Some(Expr::Sort {
            sort: SortKind::Prop,
            ..
        })
    ));
    assert!(matches!(body.as_ref(), Expr::Ident { name, .. } if name == "x"));
}

/// **G-28**：`→` 右边直接跟 `∀` / `forall` 必须解析（Lean 4 里合法）。
///
/// 改前 `parse_arrow` 的 RHS 直接调 `parse_arrow()`，绕过 `parse_expr`
/// （`forall`/`fun`/`let`/`match` 的入口）⇒ 报
/// `unexpected-token`「expected an expression, found Forall」；
/// 而 `↔` 的 RHS 走 `parse_expr` ⇒ **只有 `→` 不认**。
#[test]
fn arrow_rhs_accepts_forall_fun_and_let() {
    // `A -> ∀ x, …`（课程正文里很常见的形状）。
    let file = parse("#check Prop -> forall (x : Prop), x -> x\n").unwrap();
    let Command::Check { expr, .. } = &file.commands[0] else {
        panic!("expected #check");
    };
    // `A -> B` 是 `Expr::Arrow`（不是 Forall）——RHS 才是那个 forall。
    let Expr::Arrow { codomain, .. } = expr else {
        panic!("expected an Arrow at the top, got {expr:?}");
    };
    assert!(
        matches!(codomain.as_ref(), Expr::Forall { .. }),
        "`->` 的 RHS 必须是一个 forall，实际 = {codomain:?}"
    );

    // `∀` 的 unicode 写法与 `fun` / `let` 同样要认。
    parse("#check Prop -> ∀ (x : Prop), x -> x\n").expect("`∀` 也要认");
    parse("#check Prop -> fun (x : Prop) => x\n").expect("`fun` 也要认");
    parse("#check Prop -> let x : Prop := Prop; x\n").expect("`let` 也要认");

    // **右结合性不变**：`A -> B -> C` 仍然是 `A -> (B -> C)`。
    let file = parse("#check Prop -> Prop -> Prop\n").unwrap();
    let Command::Check { expr, .. } = &file.commands[0] else {
        panic!("expected #check");
    };
    let Expr::Arrow { codomain, .. } = expr else {
        panic!("expected an Arrow");
    };
    assert!(
        matches!(codomain.as_ref(), Expr::Arrow { .. }),
        "`->` 必须右结合（`A -> (B -> C)`），实际 = {codomain:?}"
    );
}

#[test]
fn implicit_named_arrow_parses_as_forall_with_implicit_binder() {
    let file = parse("#check {x : Prop} -> x\n").unwrap();
    let Command::Check { expr, .. } = &file.commands[0] else {
        panic!("expected #check");
    };
    let Expr::Forall { binders, .. } = expr else {
        panic!("expected Forall, got {expr:?}");
    };
    assert_eq!(binders[0].name, "x");
    assert_eq!(binders[0].style, BinderKind::Implicit);
}

#[test]
fn forall_with_comma_parses_binders_and_body() {
    let file = parse("#check forall (a : Prop), a\n").unwrap();
    let Command::Check { expr, .. } = &file.commands[0] else {
        panic!("expected #check");
    };
    let Expr::Forall { binders, body, .. } = expr else {
        panic!("expected Forall, got {expr:?}");
    };
    assert_eq!(binders.len(), 1);
    assert_eq!(binders[0].name, "a");
    assert!(matches!(body.as_ref(), Expr::Ident { name, .. } if name == "a"));
}

#[test]
fn def_parses_two_universe_params() {
    let file = parse("def f {u, v} : Prop := Prop\n").unwrap();
    let Command::Def { name, universe, .. } = &file.commands[0] else {
        panic!("expected def");
    };
    assert_eq!(name, "f");
    assert_eq!(universe, &["u".to_string(), "v".to_string()]);
}

#[test]
fn axiom_with_decl_binders_parses() {
    // WO-008 / G-13：`axiom` 与 def/theorem 同序（宇宙参数 → binder → `:`）。
    // 表 1/2/3/4 号写法都要折成同一个 Forall 望远镜，binder 的 style 要对。
    let cases: &[(&str, &[(&str, BinderKind)])] = &[
        (
            "axiom Foo (α : Type) : Prop\n",
            &[("α", BinderKind::Explicit)],
        ),
        (
            "axiom Foo (α β : Type) : Prop\n",
            &[("α", BinderKind::Explicit), ("β", BinderKind::Explicit)],
        ),
        (
            "axiom Foo {α : Type} : Prop\n",
            &[("α", BinderKind::Implicit)],
        ),
        (
            "axiom Foo {u} (α : Sort u) : Prop\n",
            &[("α", BinderKind::Explicit)],
        ),
    ];
    for (src, want) in cases {
        let file = parse(src).unwrap_or_else(|e| panic!("{src:?} must parse: {e:?}"));
        let Command::Axiom { universe, ty, .. } = &file.commands[0] else {
            panic!("expected axiom for {src:?}");
        };
        let want_universe: Vec<String> = if src.contains("{u}") {
            vec!["u".to_string()]
        } else {
            Vec::new()
        };
        assert_eq!(universe, &want_universe, "{src:?}");
        let Expr::Forall { binders, body, .. } = ty else {
            panic!("expected Forall type for {src:?}, got {ty:?}");
        };
        let got: Vec<(&str, BinderKind)> = binders
            .iter()
            .map(|b| (b.name.as_str(), b.style.clone()))
            .collect();
        assert_eq!(&got, want, "{src:?}");
        assert!(
            matches!(body.as_ref(), Expr::Sort { .. }),
            "body must be the codomain Sort for {src:?}, got {body:?}"
        );
    }
}

#[test]
fn axiom_decl_binders_match_arrow_style_ast() {
    // 表 1 号与表 7 号必须产出**等价 AST**（只有 span 不同：糖的 Forall span
    // 从 binder 起算）。比较 binder 向量（名字 + style + 类型）与 body。
    let binder_style = parse("axiom Foo (α : Type) : Prop\n").unwrap();
    let arrow_style = parse("axiom Foo : (α : Type) -> Prop\n").unwrap();
    let (Command::Axiom { ty: b_ty, .. }, Command::Axiom { ty: a_ty, .. }) =
        (&binder_style.commands[0], &arrow_style.commands[0])
    else {
        panic!("expected two axioms");
    };
    // 两份源码的排版不同（binder 在名字后 vs 类型位里），span 天然有差 ⇒
    // 归一化成「binder 名字/style」+「body 的排序」，只比结构（判据是 AST，不是文本）。
    assert_eq!(forall_shape(b_ty), forall_shape(a_ty));
}

#[test]
fn axiom_untyped_decl_binder_still_errors() {
    // 表 5 号：无类型 binder 仍是 parse 错误，且位置指到 `(`、文案是教学文案。
    let err = parse("axiom Foo (α) : Prop\n").unwrap_err();
    assert!(
        err.message.contains("显式类型"),
        "teaching message expected, got {err:?}"
    );
    assert_eq!(err.span.start.line, 1);
    assert_eq!(err.span.start.column, 11);
}

#[test]
fn def_cannot_end_with_a_dot() {
    // WO-009 表 20 行 / G-18：`def f.{u}` 不能被静默解析成名字 `f.`
    // （那会让声明名变形且不报错）；本子集不支持声明位 `.{u}` 拼写。
    let err = parse("def f.{u} (α : Sort u) : α -> α := fun a => a\n").unwrap_err();
    assert!(
        err.message.contains("声明名") && err.message.contains(".{u}"),
        "got {err:?}"
    );
    assert_eq!(err.span.start.column, 5);
    // 正常的点分名字（命名空间限定）不许被误伤。
    parse("def Foo.Bar.baz : Prop := Prop\n").expect("dotted qualified name must parse");
}

#[test]
fn duplicate_universe_param_is_rejected() {
    let err = parse("def f {u, u} : Prop := Prop\n").unwrap_err();
    assert!(
        err.message.contains("duplicate universe parameter"),
        "err: {err:?}"
    );
}

#[test]
fn universe_params_accept_space_separated_names() {
    // WO-009 表 3 行：`{u v}`（同组空格分隔）与 `{u, v}` 产出等价 AST。
    let spaced = parse("def f {u v} (α : Sort u) (β : Sort v) (a : α) : α := a\n").unwrap();
    let comma = parse("def f {u, v} (α : Sort u) (β : Sort v) (a : α) : α := a\n").unwrap();
    let (
        Command::Def { universe, ty, .. },
        Command::Def {
            universe: c_universe,
            ty: c_ty,
            ..
        },
    ) = (&spaced.commands[0], &comma.commands[0])
    else {
        panic!("expected two defs");
    };
    assert_eq!(universe, &["u".to_string(), "v".to_string()]);
    assert_eq!(c_universe, universe);
    let (
        Expr::Forall { binders, .. },
        Expr::Forall {
            binders: c_binders, ..
        },
    ) = (ty, c_ty)
    else {
        panic!("expected Forall on both sides");
    };
    assert_eq!(binders.len(), 3);
    // `{u v}` 与 `{u, v}` 的源码排版差一个逗号 ⇒ span 有差，按名字/style 归一化。
    let named = |bs: &[Binder]| -> Vec<(String, BinderKind)> {
        bs.iter()
            .map(|b| (b.name.clone(), b.style.clone()))
            .collect()
    };
    assert_eq!(named(binders), named(c_binders));
}

#[test]
fn universe_params_accept_repeated_brace_groups() {
    // WO-009 表 4 行：`{u} {v}`（连排两组）也并进同一份 universe。
    let file = parse("def f {u} {v} : Prop := Prop\n").unwrap();
    let Command::Def { universe, .. } = &file.commands[0] else {
        panic!("expected def");
    };
    assert_eq!(universe, &["u".to_string(), "v".to_string()]);
}

#[test]
fn duplicate_universe_param_across_groups_is_rejected() {
    // WO-009 表 5 行：去重必须跨组生效。
    let err = parse("def f {u} {u} (x : Prop) : Prop := x\n").unwrap_err();
    assert!(
        err.message.contains("duplicate universe parameter"),
        "err: {err:?}"
    );
}

#[test]
fn named_group_with_colon_is_still_a_binder() {
    // 有冒号 → 隐式 binder 组，永远不许被当成宇宙参数（回归钉子）。
    let file = parse("def f {α β : Type} (x : Prop) : Prop := x\n").unwrap();
    let Command::Def { universe, ty, .. } = &file.commands[0] else {
        panic!("expected def");
    };
    assert!(universe.is_empty(), "{universe:?}");
    let Expr::Forall { binders, .. } = ty else {
        panic!("expected Forall");
    };
    assert_eq!(binders.len(), 3);
    assert_eq!(binders[0].style, BinderKind::Implicit);
    // 宇宙组后接隐式 binder 组的混排（表 6 行）。
    let file = parse("def f {u} {α : Type} (a : α) : α := a\n").unwrap();
    let Command::Def { universe, ty, .. } = &file.commands[0] else {
        panic!("expected def");
    };
    assert_eq!(universe, &["u".to_string()]);
    let Expr::Forall { binders, .. } = ty else {
        panic!("expected Forall");
    };
    assert_eq!(binders.len(), 2);
}

#[test]
fn example_cannot_declare_universe_params() {
    // WO-009 表 16 行：example 没有 universe 字段 ⇒ 必须报明确文案，不许静默吞。
    let err = parse("example {u v} (α : Sort u) (a : α) : α := a\n").unwrap_err();
    assert!(err.message.contains("不支持宇宙参数"), "got {err:?}");
}

#[test]
fn inductive_block_parses_ctors_and_recursor() {
    let src = r#"
inductive Nat : Type
ctor zero : Nat
ctor succ (n : Nat) : Nat
rec Nat.rec {u} :
  (motive : (n : Nat) -> Sort u) ->
  (mz : motive zero) ->
  (ms : (n : Nat) -> motive n -> motive (succ n)) ->
  (n : Nat) -> motive n
end
"#;
    let file = parse(src).unwrap();
    assert_eq!(file.commands.len(), 1);
    let Command::InductiveBlock {
        name,
        ty,
        constructors,
        recursor,
        iota_rules,
        ..
    } = &file.commands[0]
    else {
        panic!("expected InductiveBlock");
    };
    assert_eq!(name, "Nat");
    assert!(matches!(
        ty,
        Expr::Sort {
            sort: SortKind::Type,
            ..
        }
    ));
    assert_eq!(constructors.len(), 2);
    assert_eq!(constructors[0].name, "zero");
    assert_eq!(constructors[0].binders.len(), 0);
    assert_eq!(constructors[1].name, "succ");
    assert_eq!(constructors[1].binders.len(), 1);
    assert_eq!(constructors[1].binders[0].name, "n");
    assert_eq!(recursor.as_ref().map(|r| r.name.as_str()), Some("Nat.rec"));
    assert_eq!(
        recursor.as_ref().map(|r| r.universe.clone()),
        Some(vec!["u".to_string()])
    );
    assert!(iota_rules.is_empty());
}

#[test]
fn inductive_block_parses_parameters() {
    let src = "\
inductive Option (A : Type) : Type
ctor none : Option A
ctor some (a : A) : Option A
end
";
    let file = parse(src).unwrap();
    let Command::InductiveBlock {
        name,
        params,
        constructors,
        ..
    } = &file.commands[0]
    else {
        panic!("expected InductiveBlock");
    };
    assert_eq!(name, "Option");
    assert_eq!(params.len(), 1);
    assert_eq!(params[0].name, "A");
    assert!(matches!(params[0].style, BinderKind::Explicit));
    // 字段只含 ctor 自己的 binder，不含 params。
    assert_eq!(constructors.len(), 2);
    assert_eq!(constructors[0].name, "none");
    assert_eq!(constructors[0].binders.len(), 0);
    assert_eq!(constructors[1].name, "some");
    assert_eq!(constructors[1].binders.len(), 1);
    assert_eq!(constructors[1].binders[0].name, "a");
}

#[test]
fn inductive_block_parses_implicit_parameter() {
    let src = "\
inductive Box {A : Type} : Type
ctor mk (a : A) : Box
end
";
    let file = parse(src).unwrap();
    let Command::InductiveBlock { params, .. } = &file.commands[0] else {
        panic!("expected InductiveBlock");
    };
    assert_eq!(params.len(), 1);
    assert!(matches!(params[0].style, BinderKind::Implicit));
}

/// Pi/箭头位早就支持 `(A B : Prop)`（`parse_binder_group` +
/// `push_binders`）；inductive 参数与 ctor 字段走的是单名 `parse_binder`，
/// 于是同一写法在这里解析失败（docs/design/agent-query-channel.md H6-C）。
#[test]
fn inductive_block_parses_multi_name_parameter_group() {
    let src = "\
inductive Or (A B : Prop) : Prop
ctor inl (a : A) : Or A B
ctor inr (b : B) : Or A B
end
";
    let file = parse(src).unwrap();
    let Command::InductiveBlock { params, .. } = &file.commands[0] else {
        panic!("expected InductiveBlock");
    };
    assert_eq!(params.len(), 2, "one Binder per name in the group");
    assert_eq!(params[0].name, "A");
    assert_eq!(params[1].name, "B");
    assert!(matches!(params[0].style, BinderKind::Explicit));
    assert!(matches!(params[1].style, BinderKind::Explicit));
    assert!(
        params.iter().all(|p| p.ty.is_some()),
        "every expanded binder carries the group's shared type"
    );
}

#[test]
fn inductive_block_parses_implicit_multi_name_parameter_group() {
    let src = "\
inductive Pair {A B : Type} : Type
ctor mk (a : A) (b : B) : Pair
end
";
    let file = parse(src).unwrap();
    let Command::InductiveBlock { params, .. } = &file.commands[0] else {
        panic!("expected InductiveBlock");
    };
    assert_eq!(params.len(), 2);
    assert!(params
        .iter()
        .all(|p| matches!(p.style, BinderKind::Implicit)));
}

#[test]
fn ctor_parses_multi_name_field_group() {
    let src = "\
inductive Both : Prop
ctor mk (A B : Prop) (a : A) (b : B) : Both
end
";
    let file = parse(src).unwrap();
    let Command::InductiveBlock { constructors, .. } = &file.commands[0] else {
        panic!("expected InductiveBlock");
    };
    assert_eq!(
        constructors[0].binders.len(),
        4,
        "A, B (one Binder per name in the group) + a + b"
    );
    assert_eq!(constructors[0].binders[0].name, "A");
    assert_eq!(constructors[0].binders[1].name, "B");
    assert_eq!(constructors[0].binders[2].name, "a");
    assert_eq!(constructors[0].binders[3].name, "b");
}

/// 组语法要求每个名字都有类型：`(A)` 仍然必须是解析错误（不能静默变成
/// 无类型 binder）。
#[test]
fn inductive_untyped_parameter_group_is_still_rejected() {
    let src = "\
inductive Bad (A) : Prop
ctor mk : Bad A
end
";
    assert!(parse(src).is_err(), "`(A)` without a type must not parse");
}

#[test]
fn command_keyword_inside_expression_is_rejected() {
    let err = parse("def x : Prop := def\n").unwrap_err();
    assert!(err.message.contains("command keyword"), "err: {err:?}");
}

#[test]
fn example_keeps_hole_in_value_position() {
    let file = parse("example : Prop -> Prop := sorry\n").unwrap();
    let Command::Example { ty, val, .. } = &file.commands[0] else {
        panic!("expected example");
    };
    assert!(matches!(ty, Expr::Arrow { .. }));
    assert!(matches!(val, Expr::Hole { .. }));
}

#[test]
fn let_parses_binder_value_body_and_span() {
    let file =
        parse("def two : Nat := let one : Nat := Nat.succ Nat.zero; one + one\n").unwrap();
    let Command::Def { val, .. } = &file.commands[0] else {
        panic!("expected def");
    };
    let Expr::Let {
        binder,
        val: let_val,
        body,
        span,
    } = val
    else {
        panic!("expected Let, got {val:?}");
    };
    assert_eq!(binder.name, "one");
    assert_eq!(binder.style, BinderKind::Explicit);
    assert!(matches!(
        binder.ty.as_deref(),
        Some(Expr::Ident { name, .. }) if name == "Nat"
    ));
    assert!(matches!(let_val.as_ref(), Expr::App { .. }));
    assert!(matches!(body.as_ref(), Expr::Plus { .. }));
    assert_eq!(span.end.offset, body.span().end.offset);
    assert!(span.start.offset < binder.span.start.offset);
}

#[test]
fn let_without_annotation_keeps_none_binder_type() {
    let file = parse("#check (let x := Nat.zero; x)\n").unwrap();
    let Command::Check { expr, .. } = &file.commands[0] else {
        panic!("expected #check");
    };
    let Expr::Let { binder, .. } = expr else {
        panic!("expected Let, got {expr:?}");
    };
    assert_eq!(binder.name, "x");
    assert!(
        binder.ty.is_none(),
        "missing annotation stays None for elab"
    );
}

#[test]
fn let_nests_right_associatively() {
    let file = parse("#check (let a : Nat := 0; let b : Nat := 1; a)\n").unwrap();
    let Command::Check { expr, .. } = &file.commands[0] else {
        panic!("expected #check");
    };
    let Expr::Let { body, .. } = expr else {
        panic!("expected outer Let, got {expr:?}");
    };
    assert!(
        matches!(body.as_ref(), Expr::Let { .. }),
        "body should be a nested Let: {body:?}"
    );
}

#[test]
fn let_parses_in_fun_body_and_parentheses() {
    let file = parse("def d : Nat := fun (x : Nat) => let y : Nat := x; y\n").unwrap();
    let Command::Def { val, .. } = &file.commands[0] else {
        panic!("expected def");
    };
    let Expr::Lambda { body, .. } = val else {
        panic!("expected Lambda, got {val:?}");
    };
    assert!(matches!(body.as_ref(), Expr::Let { .. }));
    let file2 = parse("#check (let x : Nat := 1; x)\n").unwrap();
    assert!(
        matches!(&file2.commands[0], Command::Check { expr, .. } if matches!(expr, Expr::Let { .. }))
    );
}

#[test]
fn let_missing_semicolon_is_a_parse_error() {
    let err = parse("def x : Nat := let y : Nat := 1\n").unwrap_err();
    assert!(err.message.contains(";"), "err: {err:?}");
}

#[test]
fn let_missing_assign_is_a_parse_error() {
    let err = parse("#check (let y : Nat; y)\n").unwrap_err();
    assert!(err.message.contains(":="), "err: {err:?}");
}

#[test]
fn let_without_binder_name_is_a_parse_error() {
    let err = parse("#check (let 3 : Nat := 3; 3)\n").unwrap_err();
    assert!(err.message.contains("let"), "err: {err:?}");
}

#[test]
fn let_does_not_start_an_application_argument() {
    // `f let …`：`let` 必须让路成 term 关键字，而不是被吃成 `f` 的实参。
    let err = parse("def x : Nat := Nat.succ let y : Nat := 1; y\n").unwrap_err();
    assert!(err.message.contains("command"), "err: {err:?}");
}

#[test]
fn match_parses_scrutinee_arms_binders_and_span() {
    let src = "def f : Color := match c with | red => green | pair x y => x\n";
    let file = parse(src).unwrap();
    let Command::Def { val, .. } = &file.commands[0] else {
        panic!("expected def");
    };
    let Expr::Match {
        scrutinee,
        arms,
        span,
    } = val
    else {
        panic!("expected Match, got {val:?}");
    };
    assert!(matches!(scrutinee.as_ref(), Expr::Ident { name, .. } if name == "c"));
    assert_eq!(arms.len(), 2);
    let Pattern::Ident { name, args, .. } = &arms[0].pattern else {
        panic!("expected a constructor pattern, got {:?}", arms[0].pattern);
    };
    assert_eq!(name, "red");
    assert!(args.is_empty());
    assert!(matches!(&arms[0].body, Expr::Ident { name, .. } if name == "green"));
    let Pattern::Ident { name, args, .. } = &arms[1].pattern else {
        panic!("expected a constructor pattern");
    };
    assert_eq!(name, "pair");
    assert_eq!(
        args.iter()
            .map(|p| match p {
                Pattern::Ident { name, .. } => name.as_str(),
                other => panic!("expected a bind, got {other:?}"),
            })
            .collect::<Vec<_>>(),
        vec!["x", "y"]
    );
    assert!(matches!(&arms[1].body, Expr::Ident { name, .. } if name == "x"));
    assert_eq!(span.end.offset, arms[1].span.end.offset);
}

#[test]
fn match_nests_in_a_branch_body() {
    let src = "def f : Color := match c with | red => match d with | blue => green | green => blue | blue => red\n";
    let file = parse(src).unwrap();
    let Command::Def { val, .. } = &file.commands[0] else {
        panic!("expected def");
    };
    let Expr::Match { arms, .. } = val else {
        panic!("expected outer Match, got {val:?}");
    };
    // 贪心：内层 match 吃掉后续的 `|` 分支，外层只剩第一条。
    assert_eq!(arms.len(), 1);
    assert!(
        matches!(&arms[0].body, Expr::Match { .. }),
        "branch body should be a nested match: {:?}",
        arms[0].body
    );
}

#[test]
fn match_is_a_tactic_in_a_by_block() {
    let src = "def swap (c : Color) : Color := by match c with | red => green | green => red\n";
    let file = parse(src).unwrap();
    let Command::Def { val, .. } = &file.commands[0] else {
        panic!("expected def");
    };
    // `def f (c : Color) : T := …` sugar folds the declared binder into a
    // Lambda, so the `by` block sits in the lambda body.
    let expr = match val {
        Expr::Lambda { body, .. } => body.as_ref(),
        other => other,
    };
    let Expr::By { tactics, .. } = expr else {
        panic!("expected a by block, got {expr:?}");
    };
    assert_eq!(tactics.len(), 1);
    let Tactic::Exact { expr, .. } = &tactics[0] else {
        panic!("`match` must lower to Exact: {:?}", tactics[0]);
    };
    assert!(matches!(expr, Expr::Match { .. }), "got {expr:?}");
}

#[test]
fn match_missing_with_is_a_parse_error() {
    let err = parse("def f : Color := match c | red => green\n").unwrap_err();
    assert!(err.message.contains("with"), "err: {err:?}");
}

#[test]
fn match_without_arms_is_a_parse_error() {
    let err = parse("def f : Color := match c with\n").unwrap_err();
    assert!(
        err.message.contains("分支") || err.message.contains("|"),
        "err: {err:?}"
    );
}

#[test]
fn match_missing_fat_arrow_is_a_parse_error() {
    let err = parse("def f : Color := match c with | red green\n").unwrap_err();
    assert!(err.message.contains("=>"), "err: {err:?}");
}

#[test]
fn match_does_not_start_an_application_argument() {
    // `f match …`：`match` 必须让路成 term 关键字。
    let err = parse("def x : Color := red match c with | red => green\n").unwrap_err();
    assert!(!err.message.is_empty(), "err: {err:?}");
}

/// 取出首个 `def` 值位 `by` 块里的 tactics（无声明 binder 时直接是 By）。
fn by_tactics(src: &str) -> Vec<Tactic> {
    let file = parse(src).unwrap();
    let Command::Def { val, .. } = &file.commands[0] else {
        panic!("expected def");
    };
    let val = match val {
        Expr::Lambda { body, .. } => body.as_ref(),
        other => other,
    };
    let Expr::By { tactics, .. } = val else {
        panic!("expected a by block, got {val:?}");
    };
    tactics.clone()
}

#[test]
fn by_block_newlines_separate_tactics() {
    let tactics = by_tactics("def t : Prop := by\n  intro a\n  exact a\n  assumption\n");
    assert_eq!(tactics.len(), 3, "tactics: {tactics:?}");
    assert!(matches!(tactics[0], Tactic::Intro { .. }));
    assert!(matches!(tactics[1], Tactic::Exact { .. }));
    assert!(matches!(tactics[2], Tactic::Assumption { .. }));
}

#[test]
fn by_block_newline_boundary_beats_application() {
    // `exact f` 换行 `apply g`：`apply` 是 tactic 关键字，不能吃成 f 的实参。
    let tactics = by_tactics("def t : Prop := by\n  exact f\n  apply g\n");
    assert_eq!(tactics.len(), 2, "tactics: {tactics:?}");
    let Tactic::Exact { expr, .. } = &tactics[0] else {
        panic!("expected Exact: {:?}", tactics[0]);
    };
    assert!(
        matches!(expr, Expr::Ident { name, .. } if name == "f"),
        "`exact f` must not absorb the next tactic: {expr:?}"
    );
    assert!(matches!(tactics[1], Tactic::Apply { .. }));
}

#[test]
fn by_block_multiline_application_is_one_tactic() {
    // 续行以非关键字开头时仍是同一个应用（一个 tactic）。
    let tactics = by_tactics("def t : Prop := by\n  exact f\n    a\n    b\n  assumption\n");
    assert_eq!(tactics.len(), 2, "tactics: {tactics:?}");
    let Tactic::Exact { expr, .. } = &tactics[0] else {
        panic!("expected Exact: {:?}", tactics[0]);
    };
    assert!(
        matches!(expr, Expr::App { .. }),
        "multi-line application must stay one Exact: {expr:?}"
    );
    assert!(matches!(tactics[1], Tactic::Assumption { .. }));
}

#[test]
fn by_block_semicolons_still_work_and_mix_with_newlines() {
    let tactics = by_tactics("def t : Prop := by intro a; exact a\n  assumption\n");
    assert_eq!(tactics.len(), 3, "tactics: {tactics:?}");
    assert!(matches!(tactics[0], Tactic::Intro { .. }));
    assert!(matches!(tactics[1], Tactic::Exact { .. }));
    assert!(matches!(tactics[2], Tactic::Assumption { .. }));
}

#[test]
fn by_block_does_not_consume_the_next_command() {
    // by 块收尾后必须停下，不能把 `#check` 也吞进去/当成实参。
    let file = parse("def t : Prop := by\n  exact a\n#check t\n").unwrap();
    assert_eq!(file.commands.len(), 2, "commands: {:?}", file.commands);
    let Command::Def { val, .. } = &file.commands[0] else {
        panic!("expected def");
    };
    let Expr::By { tactics, .. } = val else {
        panic!("expected by block, got {val:?}");
    };
    assert_eq!(tactics.len(), 1);
    assert!(matches!(&file.commands[1], Command::Check { .. }));
}

// ---- `import`（I16 P1：语法 + 置顶规则 + 模块名校验）------------------

#[test]
fn parses_a_leading_import_with_a_dotted_module_name() {
    let file = parse("import Lesson.Logic\n\ndef x : Nat := 1\n").expect("parses");
    assert_eq!(file.commands.len(), 2);
    let Command::Import { module, span } = &file.commands[0] else {
        panic!("expected import, got {:?}", file.commands[0]);
    };
    assert_eq!(module, "Lesson.Logic");
    assert_eq!(span.start.line, 1);
    assert_eq!(file.commands[1].import_module(), None);
}

#[test]
fn parses_several_imports_before_declarations() {
    let file = parse("import A\nimport B.C\ndef x : Nat := 1\n").expect("parses");
    assert_eq!(file.commands.len(), 3);
    assert!(file.commands[0].is_import());
    assert!(file.commands[1].is_import());
    assert!(!file.commands[2].is_import());
}

#[test]
fn import_after_a_declaration_is_rejected() {
    let err = parse("def x : Nat := 1\nimport A\n").expect_err("late import");
    assert_eq!(err.kind, DiagnosticKind::ImportMustPrecedeDeclarations);
    assert_eq!(
        err.span.start.line, 2,
        "the error points at the import line"
    );
    assert!(err.hint().contains("任何声明之前"));
}

#[test]
fn import_without_a_name_is_malformed() {
    let err = parse("import\n").expect_err("missing module name");
    assert_eq!(err.code(), "import-malformed");
}

#[test]
fn import_with_trailing_tokens_on_the_same_line_is_malformed() {
    let err = parse("import A B\n").expect_err("one module per line");
    assert_eq!(err.code(), "import-malformed");
    assert!(err.message.contains("一行只能写一个模块名"));
}

#[test]
fn import_of_an_invalid_module_name_carries_the_module_hint() {
    let err = parse("import Foo.\n").expect_err("empty component");
    assert_eq!(err.code(), "import-not-a-valid-module-name");
    assert!(err.hint().contains("点分"), "hint: {}", err.hint());

    let err = parse("import 1Foo\n").expect_err("digit start");
    assert_eq!(err.code(), "import-not-a-valid-module-name");
    assert!(err.hint().contains("数字"), "hint: {}", err.hint());
}

#[test]
fn import_name_with_a_dash_is_rejected_with_the_dash_hint() {
    // `-` 不是标识符续接字符，词法层就会拒绝；它必须仍给出 import 专用的
    // 教学提示，而不是通用的 "expected `->` or `--`"。
    let err = parse("import unit1-propositions-proofs\n").expect_err("dash");
    assert_eq!(err.code(), "import-not-a-valid-module-name");
    assert!(
        err.hint().contains("`-` 不是模块名字符"),
        "hint: {}",
        err.hint()
    );
}

#[test]
fn dash_outside_an_import_line_keeps_the_generic_hint() {
    let err = parse("def x : Nat := 1 - 2\n").expect_err("dash in an expression");
    assert_eq!(err.code(), "unexpected-token");
    assert!(!err.hint().contains("模块名"));
}

#[test]
fn import_is_a_reserved_command_in_expression_position() {
    // 与其它命令关键字同一条规则：表达式位出现 `import` 必须报
    // "command keyword ... cannot appear inside an expression"，
    // 这样 `def x : Nat := 1\nimport A` 里的 `import` 不会被吞进上一个表达式
    // （否则"import 必须置顶"的诊断根本触发不了）。
    let err = parse("def x : Nat := import\n").expect_err("import in a value");
    assert_eq!(err.code(), "unexpected-token");
    assert!(
        err.message.contains("cannot appear inside an expression"),
        "message: {}",
        err.message
    );
    // 名字位与其它命令关键字一样宽松（`def theorem := …` 今天也合法）：
    // 这里刻意只钉住"表达式位被拒"这一条语义。
    assert!(parse("def theorem : Nat := 1\n").is_ok());
}

// ---- 记法（G-04 / WO-011，docs/design/notation-subset.md §2）----------

/// 首个命令是记法命令时的 `(symbol, precedence, assoc, target)`。
fn notation_of(src: &str) -> (String, Option<u16>, NotationAssoc, String) {
    let file = parse(src).unwrap_or_else(|e| panic!("parse {src}: {e:?}"));
    let Command::Notation {
        symbol,
        precedence,
        assoc,
        target,
        ..
    } = &file.commands[0]
    else {
        panic!("expected a notation command, got {:?}", file.commands[0]);
    };
    (symbol.clone(), *precedence, *assoc, target.clone())
}

#[test]
fn notation_commands_parse_into_one_ast_node_each() {
    assert_eq!(
        notation_of("infix:50 \" ∈ \" => Set.mem\n"),
        (
            "∈".to_string(),
            Some(50),
            NotationAssoc::Infix,
            "Set.mem".into()
        ),
        "the symbol is the trimmed string literal"
    );
    assert_eq!(
        notation_of("infixl:65 \" ∪ \" => Set.union\n"),
        (
            "∪".to_string(),
            Some(65),
            NotationAssoc::Infixl,
            "Set.union".into()
        )
    );
    assert_eq!(
        notation_of("infixr:80 \" '' \" => Set.image\n"),
        (
            "''".to_string(),
            Some(80),
            NotationAssoc::Infixr,
            "Set.image".into()
        )
    );
    assert_eq!(
        notation_of("notation \"∅\" => Set.empty\n"),
        (
            "∅".to_string(),
            None,
            NotationAssoc::Nullary,
            "Set.empty".into()
        ),
        "a nullary notation writes no precedence"
    );
}

#[test]
fn notation_command_shape_errors_are_dedicated_diagnostics() {
    // 缺优先级（`infix` 族必填）。
    let err = parse("infix \" ∈ \" => Set.mem\n").expect_err("missing precedence");
    assert_eq!(err.code(), "notation-shape");
    assert!(err.hint().contains("infix:50"), "hint: {}", err.hint());
    // 缺 `=>`。
    let err = parse("infix:50 \" ∈ \" Set.mem\n").expect_err("missing arrow");
    assert_eq!(err.code(), "notation-shape");
    // 符号是标识符词：它会被当普通标识符读走，记法永远不可能命中。
    let err = parse("infix:50 \"in\" => Set.mem\n").expect_err("ident symbol");
    assert_eq!(err.code(), "notation-shape");
    assert!(err.message.contains("标识符"), "message: {}", err.message);
    // 符号是空串。
    let err = parse("notation \"\" => Set.empty\n").expect_err("empty symbol");
    assert_eq!(err.code(), "notation-shape");
    // 优先级越界（合法范围 1–1000，设计 N1）。
    let err = parse("infix:0 \" ∈ \" => Set.mem\n").expect_err("precedence 0");
    assert_eq!(err.code(), "notation-shape");
    let err = parse("infix:1001 \" ∈ \" => Set.mem\n").expect_err("precedence 1001");
    assert_eq!(err.code(), "notation-shape");
    // `notation` 不接优先级（设计 N1 / 已知差异 4）。
    let err = parse("notation:max \"∅\" => Set.empty\n").expect_err("notation:N");
    assert_eq!(err.code(), "notation-shape");
}

#[test]
fn duplicate_notation_symbol_is_rejected() {
    // v1 自定：同一文件里重复声明同一符号是错误（Lean 允许重载；
    // 设计「已知差异 6」）。两条命令在**同一个** `parse` 里。
    let err = parse(
        "def mem : Prop -> Prop -> Prop := fun (a : Prop) => fun (b : Prop) => a\n\
         infix:50 \" ∈ \" => mem\n\
         infix:60 \" ∈ \" => mem\n",
    )
    .expect_err("duplicate symbol");
    assert_eq!(err.code(), "notation-shape");
    assert!(err.message.contains("∈"), "message: {}", err.message);
}

#[test]
fn notation_symbol_is_reserved_in_expression_position() {
    // `infix` 是命令关键字：表达式位出现必须让路（与 import 同规则）。
    let err = parse("def x : Nat := infix\n").expect_err("command in a value");
    assert_eq!(err.code(), "unexpected-token");
    assert!(
        err.message.contains("cannot appear inside an expression"),
        "message: {}",
        err.message
    );
}

#[test]
fn undeclared_symbol_is_a_dedicated_diagnostic() {
    // 文件里没有 `infix … " ∈ "` ⇒ 专用诊断（**不是** unknown identifier）。
    let err =
        parse("def p (a : Prop) (A : Prop) : Prop := a ∈ A\n").expect_err("undeclared symbol");
    assert_eq!(err.code(), "notation-unknown-symbol");
    assert!(err.message.contains("∈"), "message: {}", err.message);
    assert!(
        err.hint().contains("点名写法"),
        "the hint teaches the pointful spelling: {}",
        err.hint()
    );
}

#[test]
fn notation_is_file_local_and_declaration_order_matters() {
    // 记法只在**声明之后**可用（N5）：前面的使用是未声明符号。
    let err = parse(
        "def p (a : Prop) (A : Prop) : Prop := a ∈ A\n\
         infix:50 \" ∈ \" => p\n",
    )
    .expect_err("use before declaration");
    assert_eq!(err.code(), "notation-unknown-symbol");
}

#[test]
fn notation_precedence_ladder_binds_tighter_than_arrow() {
    // `A ⊆ B -> C` ⇒ `(A ⊆ B) -> C`（50 紧于 `->`）。
    let file = parse(
        "def subset : Prop -> Prop -> Prop := fun (a : Prop) => fun (b : Prop) => a\n\
         infix:50 \" ⊆ \" => subset\n\
         def use : Prop := (A ⊆ B) -> C\n",
    )
    .unwrap();
    let Command::Def { val, .. } = &file.commands[2] else {
        panic!("expected def");
    };
    let Expr::Arrow { domain, .. } = val else {
        panic!("expected an arrow at the top, got {val:?}");
    };
    assert!(
        matches!(&**domain, Expr::Notation { symbol, .. } if symbol == "⊆"),
        "the notation must be the arrow's domain: {domain:?}"
    );
}

#[test]
fn notation_precedence_ladder_orders_two_notations() {
    // `∈`=50、`∪`=65 ⇒ `a ∈ A ∪ B` 解析成 `a ∈ (A ∪ B)`。
    let file = parse(
        "def mem : Prop -> Prop -> Prop := fun (a : Prop) => fun (b : Prop) => a\n\
         def uni : Prop -> Prop -> Prop := fun (a : Prop) => fun (b : Prop) => a\n\
         infix:50 \" ∈ \" => mem\n\
         infixl:65 \" ∪ \" => uni\n\
         def use : Prop := a ∈ A ∪ B\n",
    )
    .unwrap();
    let Command::Def { val, .. } = &file.commands[4] else {
        panic!("expected def");
    };
    let Expr::Notation { symbol, rhs, .. } = val else {
        panic!("expected the outer notation, got {val:?}");
    };
    assert_eq!(symbol, "∈");
    assert!(
        matches!(rhs.as_deref(), Some(Expr::Notation { symbol, .. }) if symbol == "∪"),
        "the tighter `∪` must be the right operand: {rhs:?}"
    );
}

#[test]
fn non_associative_infix_rejects_chaining() {
    // `infix` 无结合：`a ∈ b ∈ c` 报解析错（设计 N3）。
    let err = parse(
        "def mem : Prop -> Prop -> Prop := fun (a : Prop) => fun (b : Prop) => a\n\
         infix:50 \" ∈ \" => mem\n\
         def use : Prop := a ∈ b ∈ c\n",
    )
    .expect_err("non-associative chaining");
    assert_eq!(err.code(), "unexpected-token");
}

#[test]
fn infixl_is_left_associative() {
    // `infixl` 左结合：`a ∪ b ∪ c` ⇒ `(a ∪ b) ∪ c`。
    let file = parse(
        "def uni : Prop -> Prop -> Prop := fun (a : Prop) => fun (b : Prop) => a\n\
         infixl:65 \" ∪ \" => uni\n\
         def use : Prop := a ∪ b ∪ c\n",
    )
    .unwrap();
    let Command::Def { val, .. } = &file.commands[2] else {
        panic!("expected def");
    };
    let Expr::Notation { lhs, .. } = val else {
        panic!("expected the outer notation, got {val:?}");
    };
    assert!(
        matches!(lhs.as_deref(), Some(Expr::Notation { symbol, .. }) if symbol == "∪"),
        "left association puts the inner notation on the left: {lhs:?}"
    );
}

#[test]
fn infixr_is_right_associative() {
    // `infixr` 右结合：`a ⋃ b ⋃ c` ⇒ `a ⋃ (b ⋃ c)`。
    //
    // 注：这里刻意**不用** Lean Mathlib 的 `''`——`'` 是今天的标识符续接
    // 字符（`token.rs` 的 `is_ident_continue`），它不在数学符号码点类里，
    // 所以 `''` 是**第二刀**的事（设计 §7）。v1 只验证 `infixr` 这条**结合
    // 规则**本身。
    let file = parse(
        "def uni : Prop -> Prop -> Prop := fun (a : Prop) => fun (b : Prop) => a\n\
         infixr:80 \" ⋃ \" => uni\n\
         def use : Prop := a ⋃ b ⋃ c\n",
    )
    .unwrap();
    let Command::Def { val, .. } = &file.commands[2] else {
        panic!("expected def");
    };
    let Expr::Notation { rhs, .. } = val else {
        panic!("expected the outer notation, got {val:?}");
    };
    assert!(
        matches!(rhs.as_deref(), Some(Expr::Notation { symbol, .. }) if symbol == "⋃"),
        "right association puts the inner notation on the right: {rhs:?}"
    );
}

#[test]
fn nullary_notation_parses_as_a_notation_node() {
    let file = parse(
        "def empty : Prop := False\n\
         notation \"∅\" => empty\n\
         def use : Prop := ∅\n",
    )
    .unwrap();
    let Command::Def { val, .. } = &file.commands[2] else {
        panic!("expected def");
    };
    assert!(
        matches!(val, Expr::Notation { symbol, lhs, rhs, .. }
            if symbol == "∅" && lhs.is_none() && rhs.is_none()),
        "a nullary notation has no operands: {val:?}"
    );
}

#[test]
fn plus_keeps_its_exact_ast_and_relative_precedence() {
    // 回归：`+` 仍是 `Expr::Plus`，且与 `->`/应用的相对优先级不变。
    let file = parse("def n : Nat := 1 + 1 + 1\n").unwrap();
    let Command::Def { val, .. } = &file.commands[0] else {
        panic!("expected def");
    };
    let Expr::Plus { lhs, .. } = val else {
        panic!("`+` must stay Expr::Plus, got {val:?}");
    };
    assert!(
        matches!(&**lhs, Expr::Plus { .. }),
        "`+` stays left-associative: {lhs:?}"
    );
    // `a -> b + c` ⇒ `a -> (b + c)`：`+` 紧于 `->`（parser-only 检查，
    // 这里只钉分组，不要求这个表达式类型正确）。
    let file = parse("def t : Prop := a -> b + c\n").unwrap();
    let Command::Def { val, .. } = &file.commands[0] else {
        panic!("expected def");
    };
    let Expr::Arrow { codomain, .. } = val else {
        panic!("expected an arrow, got {val:?}");
    };
    assert!(
        matches!(&**codomain, Expr::Plus { .. }),
        "`+` must bind tighter than `->`: {codomain:?}"
    );
    // `1 + 1 + 1` 的 AST 与今天逐字节相同（仍 `Expr::Plus`，左结合）。
    let file = parse("def m : Nat := 1 + 1 + 1\n").unwrap();
    let Command::Def { val, .. } = &file.commands[0] else {
        panic!("expected def");
    };
    assert!(
        matches!(val, Expr::Plus { lhs, .. } if matches!(&**lhs, Expr::Plus { .. })),
        "`+` stays Expr::Plus and left-associative: {val:?}"
    );
}

#[test]
fn notation_symbol_does_not_start_an_application_argument() {
    // 未声明符号绝不能被 `parse_app` 吃成实参（否则诊断会指向错的地方）。
    let err = parse("def f : Prop := g ∈ h\n").expect_err("symbol as argument");
    assert_eq!(err.code(), "notation-unknown-symbol");
}

#[test]
fn notation_command_still_counts_as_a_declaration_for_import_ordering() {
    // 记法命令是「非 import 命令」⇒ 它之后的 `import` 仍报「必须置顶」
    // （既有行为，钉住）。
    let err = parse(
        "def mem : Prop -> Prop -> Prop := fun (a : Prop) => fun (b : Prop) => a\n\
         infix:50 \" ∈ \" => mem\n\
         import Foo\n",
    )
    .expect_err("import after a notation command");
    assert_eq!(err.code(), "import-must-precede-declarations");
}

// ── G-05：namespace / end / open（设计 docs/design/namespace-open.md）────

#[test]
fn namespace_end_open_are_commands() {
    let file = parse(
        "namespace Foo\n\
         def x : Type := Prop\n\
         end Foo\n\
         open Foo\n",
    )
    .expect("parse");
    assert_eq!(file.commands.len(), 4);
    assert!(matches!(
        &file.commands[0],
        Command::Namespace { name, .. } if name == "Foo"
    ));
    assert!(matches!(
        &file.commands[2],
        Command::End { name, .. } if name == "Foo"
    ));
    assert!(matches!(
        &file.commands[3],
        Command::Open { name, .. } if name == "Foo"
    ));
}

#[test]
fn nested_namespaces_accumulate_the_prefix() {
    let file = parse(
        "namespace A\n\
         namespace B\n\
         def mem : Type := Prop\n\
         end B\n\
         end A\n",
    )
    .expect("parse");
    assert!(
        matches!(&file.commands[2], Command::Def { name, .. } if name == "A.B.mem"),
        "nested namespaces must accumulate: {:?}",
        file.commands
    );
}

#[test]
fn a_dotted_namespace_prefixes_like_two_nested_ones() {
    let file = parse("namespace A.B\ndef mem : Type := Prop\nend A.B\n").expect("parse");
    assert!(matches!(&file.commands[1], Command::Def { name, .. } if name == "A.B.mem"));
}

#[test]
fn a_dotted_declaration_name_is_concatenated_inside_a_namespace() {
    // Lean 同款：`namespace A` 里的 `def Set.mem` ⇒ `A.Set.mem`。
    let file = parse("namespace A\ndef Set.mem : Type := Prop\nend A\n").expect("parse");
    assert!(matches!(&file.commands[1], Command::Def { name, .. } if name == "A.Set.mem"));
}

#[test]
fn end_mismatch_is_a_dedicated_parse_error() {
    let err = parse("namespace A\ndef x : Type := Prop\nend B\n").expect_err("mismatch");
    assert_eq!(err.code(), "parse-namespace-mismatch");
    assert!(
        err.message.contains('A'),
        "the message must name the expected `end A`: {err:?}"
    );
}

#[test]
fn end_without_an_open_namespace_is_a_dedicated_parse_error() {
    let err = parse("end Foo\n").expect_err("no namespace");
    assert_eq!(err.code(), "parse-namespace-mismatch");
}

#[test]
fn an_unclosed_namespace_is_reported_at_eof() {
    let err = parse("namespace Foo\ndef x : Type := Prop\n").expect_err("unclosed");
    assert_eq!(err.code(), "parse-namespace-unclosed");
    // span 指回那条 `namespace`（不是文件尾）。
    assert_eq!(err.span.start.line, 1);
}

#[test]
fn namespace_shape_errors_are_dedicated() {
    let err = parse("namespace\n").expect_err("no name");
    assert_eq!(err.code(), "parse-namespace-shape");
    let err = parse("namespace A\ndef x : Type := Prop\nend\n").expect_err("bare end");
    assert_eq!(err.code(), "parse-namespace-shape");
    // 关键字不能当命名空间名（`namespace def x : …` 这种漏写名字的写法
    // 要报形状错，而不是把 `def` 当名字）。
    let err = parse("namespace def x : Type := Prop\n").expect_err("keyword name");
    assert_eq!(err.code(), "parse-namespace-shape");
    let err = parse("open def\n").expect_err("keyword name");
    assert_eq!(err.code(), "parse-namespace-shape");
}

#[test]
fn parse_fragment_tolerates_an_unclosed_namespace() {
    // 判卷合成路径专用（judge.rs 的前缀是文件的一个片段，见设计 §4.1）。
    let file = parse_fragment("namespace A\ndef mem : Type := Prop\n").expect("fragment");
    assert!(matches!(&file.commands[1], Command::Def { name, .. } if name == "A.mem"));
    // 严格入口仍然报（同一份文本）。
    assert!(parse("namespace A\ndef mem : Type := Prop\n").is_err());
}

#[test]
fn namespace_and_open_are_reserved_inside_expressions() {
    let err = parse("def f : Type := namespace\n").expect_err("keyword as expression");
    assert_eq!(err.code(), "unexpected-token");
}

// ── 第二刀：open 的子句 / `open … in` / `export`（设计 §N7）────────────

#[test]
fn open_clauses_parse_into_the_filter() {
    let file = parse(
        "open Foo\n\
         open Bar (x y)\n\
         open Baz hiding z\n\
         open Qux renaming a => b, c => d\n",
    )
    .expect("parse");
    let Command::Open { filter, .. } = &file.commands[0] else {
        panic!("expected an open command: {:?}", file.commands[0]);
    };
    assert!(filter.is_empty(), "no clause => empty filter");
    let Command::Open { filter, .. } = &file.commands[1] else {
        panic!("expected an open command");
    };
    assert_eq!(
        filter.only.as_deref(),
        Some(&["x".to_string(), "y".to_string()][..])
    );
    let Command::Open { filter, .. } = &file.commands[2] else {
        panic!("expected an open command");
    };
    assert_eq!(filter.hiding, vec!["z".to_string()]);
    let Command::Open { filter, .. } = &file.commands[3] else {
        panic!("expected an open command");
    };
    assert_eq!(
        filter.renaming,
        vec![
            ("a".to_string(), "b".to_string()),
            ("c".to_string(), "d".to_string())
        ]
    );
}

#[test]
fn open_clause_names_may_collide_with_command_keywords_in_other_positions() {
    // `hiding` 后面那条命令的关键字（`def`/`#check`）不是列表的一部分。
    let file = parse("open Foo hiding x\ndef y : Type := Prop\n").expect("parse");
    assert_eq!(file.commands.len(), 2, "{:?}", file.commands);
    let Command::Open { filter, .. } = &file.commands[0] else {
        panic!("expected an open command");
    };
    assert_eq!(filter.hiding, vec!["x".to_string()]);
}

#[test]
fn open_in_wraps_the_next_command_and_records_the_header() {
    let file = parse("open Foo hiding x in def y : Type := Prop\n").expect("parse");
    assert_eq!(file.commands.len(), 1, "{:?}", file.commands);
    let Command::OpenIn {
        name,
        filter,
        inner,
        header,
        span,
    } = &file.commands[0]
    else {
        panic!("expected `open … in`: {:?}", file.commands[0]);
    };
    assert_eq!(name, "Foo");
    assert_eq!(filter.hiding, vec!["x".to_string()]);
    assert!(
        matches!(inner.as_ref(), Command::Def { name, .. } if name == "y"),
        "the wrapped command must be the declaration: {inner:?}"
    );
    // header 只覆盖 open 头部（合成前缀要按它补一行 open），span 覆盖整条。
    let src = "open Foo hiding x in def y : Type := Prop\n";
    assert_eq!(
        &src[header.start.offset..header.end.offset],
        "open Foo hiding x"
    );
    assert_eq!(&src[span.start.offset..span.end.offset], src.trim_end());
}

#[test]
fn nested_open_in_chains_unwrap() {
    let file = parse("open A in open B in #check x\n").expect("parse");
    let Command::OpenIn { inner, .. } = &file.commands[0] else {
        panic!("expected the outer `open … in`");
    };
    assert!(
        matches!(inner.as_ref(), Command::OpenIn { name, .. } if name == "B"),
        "inner: {inner:?}"
    );
}

#[test]
fn export_parses_like_open_without_in() {
    let file = parse("export Foo (x)\n").expect("parse");
    let Command::Export { name, filter, .. } = &file.commands[0] else {
        panic!("expected an export command: {:?}", file.commands[0]);
    };
    assert_eq!(name, "Foo");
    assert_eq!(filter.only.as_deref(), Some(&["x".to_string()][..]));
}

#[test]
fn open_and_export_clause_shape_errors_are_dedicated() {
    for (src, tag) in [
        ("open Foo ()\n", "empty only list"),
        ("open Foo hiding\n", "empty hiding list"),
        ("open Foo renaming a b\n", "renaming without `=>`"),
        ("open Foo (A.b)\n", "dotted name in the only list"),
        ("open Foo (a b) renaming a => c\n", "two clauses combined"),
        ("open Foo hiding a hiding b\n", "the same clause twice"),
        ("open Foo in import Bar\n", "import as the body"),
        ("open Foo in namespace A\n", "namespace as the body"),
        (
            "open Foo in infix:50 \" + \" => Plus.plus\n",
            "notation as the body",
        ),
        ("open scoped Foo in #check x\n", "open scoped with `in`"),
        ("export Foo in #check x\n", "export with `in`"),
    ] {
        let err = parse(src).unwrap_err();
        assert_eq!(err.code(), "parse-namespace-shape", "{tag}: {err:?}");
    }
}

// ---- abbrev（G-08，docs/design/abbrev.md）------------------------------

/// 去掉 Debug 文本里的 `Span { … }` 段：`def` 与 `abbrev` 的**源码偏移
/// 本来就不同**（`abbrev` 多三个字符），要比较的是 AST **形状**。
fn strip_spans(text: &str) -> String {
    let mut out = String::with_capacity(text.len());
    let mut rest = text;
    while let Some(start) = rest.find("Span {") {
        out.push_str(&rest[..start]);
        let mut depth = 0usize;
        let mut end = None;
        for (i, ch) in rest[start..].char_indices() {
            match ch {
                '{' => depth += 1,
                '}' => {
                    depth -= 1;
                    if depth == 0 {
                        end = Some(start + i + 1);
                        break;
                    }
                }
                _ => {}
            }
        }
        let Some(end) = end else { break };
        rest = &rest[end..];
    }
    out.push_str(rest);
    out
}

/// 首个命令的 `(name, universe, ty, val)`——`def` 与 `abbrev` 必须给出
/// **逐字段相同**的 `Command::Def`（`abbrev` 不是新 AST 节点）。
fn def_shape_of(src: &str) -> (String, Vec<String>, String, String) {
    let file = parse(src).unwrap_or_else(|e| panic!("parse {src}: {e:?}"));
    let Command::Def {
        name,
        universe,
        ty,
        val,
        ..
    } = &file.commands[0]
    else {
        panic!("expected a def command, got {:?}", file.commands[0]);
    };
    (
        name.clone(),
        universe.clone(),
        strip_spans(&format!("{ty:?}")),
        strip_spans(&format!("{val:?}")),
    )
}

// ---- 一元记法 prefix/postfix（G-04 第二刀，设计 §10.1）-----------------

#[test]
fn prefix_and_postfix_commands_parse_into_one_ast_node_each() {
    let (symbol, precedence, assoc, target) =
        notation_of("prefix:100 \" 𝒫 \" => Set.powerset\n");
    assert_eq!(
        (symbol.as_str(), precedence, assoc, target.as_str()),
        ("𝒫", Some(100), NotationAssoc::Prefix, "Set.powerset")
    );
    let (symbol, precedence, assoc, target) = notation_of("postfix:100 \" ᶜ \" => Set.compl\n");
    assert_eq!(
        (symbol.as_str(), precedence, assoc, target.as_str()),
        ("ᶜ", Some(100), NotationAssoc::Postfix, "Set.compl")
    );
    // `infixr:80 " '' "`：撇号符号（第二刀的词法增量）。
    let (symbol, _, assoc, _) = notation_of("infixr:80 \" '' \" => Set.image\n");
    assert_eq!((symbol.as_str(), assoc), ("''", NotationAssoc::Infixr));
}

#[test]
fn prefix_and_postfix_require_a_precedence() {
    // 与 `infix` 族同一把尺子、同一个诊断。
    let err = parse("prefix \" 𝒫 \" => Set.powerset\n").expect_err("missing N");
    assert_eq!(err.code(), "notation-shape");
    assert!(err.hint().contains("N 取 1–1000"), "hint: {}", err.hint());
    let err = parse("postfix:0 \" ᶜ \" => Set.compl\n").expect_err("N out of range");
    assert_eq!(err.code(), "notation-shape");
}

#[test]
fn declared_symbols_are_reserved_for_the_whole_file() {
    // 声明驱动的词法（设计 §10.2）：`𝒫`/`ᶜ`/`''` 这些"不是数学符号类"的
    // 符号在**本文件**里被读成 `Sym`——`Aᶜ` 必须在标识符内部断开。
    let file = parse(
        "prefix:100 \" 𝒫 \" => Set.powerset\n\
         postfix:100 \" ᶜ \" => Set.compl\n\
         infixr:80 \" '' \" => Set.image\n\
         def p (α : Type) (A : Set α) : Set (Set α) := 𝒫 A\n\
         def c (α : Type) (A : Set α) : Set α := Aᶜ\n\
         def i (α β : Type) (f : α -> β) (A : Set α) : Set β := f '' A\n",
    )
    .expect("parse");
    // 声明级 binder 会折成 `fun … => <体>`（`wrap_decl_binders`），
    // 所以记号节点在 lambda 体里。
    let val_of = |index: usize| -> Expr {
        match &file.commands[index] {
            Command::Def { val, .. } => val.clone(),
            other => panic!("expected a def, got {other:?}"),
        }
    };
    assert!(matches!(
        lambda_body(&val_of(3)),
        Expr::Notation {
            assoc: NotationAssoc::Prefix,
            rhs: Some(_),
            lhs: None,
            ..
        }
    ));
    assert!(matches!(
        lambda_body(&val_of(4)),
        Expr::Notation {
            assoc: NotationAssoc::Postfix,
            lhs: Some(_),
            rhs: None,
            ..
        }
    ));
    assert!(matches!(
        lambda_body(&val_of(5)),
        Expr::Notation {
            assoc: NotationAssoc::Infixr,
            ..
        }
    ));
}

#[test]
fn a_binder_symbol_in_operator_position_is_a_teaching_error() {
    // 第三刀 §12.1：**binder** 记法符号落在算子位上仍然是教学错误
    // （它没有优先级、也不在爬升梯子上）。
    let err = parse(
        "binder_notation \" ∃ \" => Exists\n\
         axiom bad : Prop -> Prop -> Prop\n\
         axiom p : Prop\n\
         axiom q : Prop\n\
         #check p ∃ q\n",
    )
    .expect_err("binder symbol in operator position");
    assert_eq!(err.code(), "unexpected-token");
    assert!(err.message.contains("binder"), "message: {}", err.message);
}

/// 第三刀 §12.1：两段式 binder 的关系符号没声明时，报的是**未声明符号**
/// 的专用诊断（不是通用的 "expected a binder"）。
#[test]
fn an_undeclared_two_stage_binder_relation_is_an_unknown_symbol() {
    let err = parse("axiom p : Prop -> Prop\n#check forall x ∈ p, p x\n")
        .expect_err("an undeclared relation symbol");
    assert_eq!(err.code(), "notation-unknown-symbol");
    assert!(err.message.contains('∈'), "message: {}", err.message);
}

/// 第三刀 §12.5：一元**前缀**记法在实参位免括号——`f 𝒫 A` 就是
/// `f (𝒫 A)`。副作用（已记进设计 §13）：`A 𝒫 B` 也从"响亮的 parse 错"
/// 变成 `A (𝒫 B)`——两者形状完全一样，无法只放行前者。
#[test]
fn a_prefix_notation_is_an_argument_without_parentheses() {
    let file = parse(
        "prefix:100 \" 𝒫 \" => Set.powerset\n\
         def bad (α : Type) (A B : Set α) : Set (Set α) := A 𝒫 B\n",
    )
    .expect("prefix notation in argument position");
    let Command::Def { val, .. } = &file.commands[1] else {
        panic!("expected a def");
    };
    // 声明 binder 会把值位包成 lambda 望远镜，取最内层的 body。
    let mut body = val;
    while let Expr::Lambda { body: inner, .. } = body {
        body = inner;
    }
    let Expr::App { fun, arg, .. } = body else {
        panic!("expected an application, got {body:?}");
    };
    assert!(matches!(fun.as_ref(), Expr::Ident { name, .. } if name == "A"));
    assert!(
        matches!(arg.as_ref(), Expr::Notation { symbol, .. } if symbol == "𝒫"),
        "the argument is the prefix notation: {arg:?}"
    );
}

#[test]
fn abbrev_and_def_produce_the_same_command() {
    // G-08：`abbrev` 是 `def` 的**同语义拼写**——同 AST、同后续流水线
    // （设计 §2）。真 Lean 的 `abbrev` 行因此能原样编。
    let src = "Set (α : Type) : Type := α -> Prop\n";
    assert_eq!(
        def_shape_of(&format!("def {src}")),
        def_shape_of(&format!("abbrev {src}")),
        "abbrev must elaborate to the very same Command::Def as def"
    );
    // 宇宙参数与声明级 binder 也逐字继承（共享 `parse_def`）。
    let src = "f {u} (a : Sort u) : Sort u := a\n";
    assert_eq!(
        def_shape_of(&format!("def {src}")),
        def_shape_of(&format!("abbrev {src}"))
    );
}

#[test]
fn abbrev_is_a_reserved_command_not_an_identifier() {
    // 与 `def`/`theorem` 同族：命令关键字在**表达式位**被拒（名字位与
    // `def theorem …` 一样宽松——既有语义，一字不改）。
    let err = parse("def f : Type := abbrev\n").expect_err("abbrev as an expression");
    assert_eq!(err.code(), "unexpected-token");
    // 反向对照：`abbrev` 真的是命令（同样两行把关键字换成 `def` 是合法文件）。
    assert!(parse("def abbrev : Type := Prop\n").is_ok());
    assert!(parse("abbrev abbrev : Type := Prop\n").is_ok());
}

#[test]
fn abbrev_inside_a_namespace_gets_the_prefix() {
    // 命名空间前缀在 parser 里落定（G-05 N3），`abbrev` 走同一条路。
    let file = parse("namespace A\nabbrev Set (α : Type) : Type := α -> Prop\nend A\n")
        .expect("parse");
    assert!(matches!(&file.commands[1], Command::Def { name, .. } if name == "A.Set"));
}

fn app_head(expr: &Expr) -> &Expr {
    match expr {
        Expr::App { fun, .. } => app_head(fun),
        other => other,
    }
}

fn forall_shape(ty: &Expr) -> (Vec<(String, BinderKind)>, SortKind) {
    let Expr::Forall { binders, body, .. } = ty else {
        panic!("expected Forall, got {ty:?}");
    };
    let named = binders
        .iter()
        .map(|b| (b.name.clone(), b.style.clone()))
        .collect();
    let Expr::Sort { sort, .. } = body.as_ref() else {
        panic!("expected Sort body, got {body:?}");
    };
    (named, sort.clone())
}

fn lambda_body(val: &Expr) -> &Expr {
    match val {
        Expr::Lambda { body, .. } => body,
        other => other,
    }
}
