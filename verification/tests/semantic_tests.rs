use front::semantic::{
    goal_runs, goal_text, keywords, runs_to_text, semantic_tokens, tag_expr, tag_runs, Run,
    SemanticKind, SemanticSpan,
};

/// 第一个源码切片等于 `text` 的语义 token。
fn find<'a>(src: &'a str, spans: &'a [SemanticSpan], text: &str) -> &'a SemanticSpan {
    spans
        .iter()
        .find(|s| &src[s.span.start.offset..s.span.end.offset] == text)
        .unwrap_or_else(|| panic!("no semantic token with text `{text}` in {spans:?}"))
}

/// 源码切片等于 `text` 的所有 token 的 kind（按出现顺序）。
fn kinds_of(src: &str, spans: &[SemanticSpan], text: &str) -> Vec<SemanticKind> {
    spans
        .iter()
        .filter(|s| &src[s.span.start.offset..s.span.end.offset] == text)
        .map(|s| s.kind)
        .collect()
}

/// 归为 `kind` 的所有 token 的源码切片。
fn texts_of<'a>(src: &'a str, spans: &'a [SemanticSpan], kind: SemanticKind) -> Vec<&'a str> {
    spans
        .iter()
        .filter(|s| s.kind == kind)
        .map(|s| &src[s.span.start.offset..s.span.end.offset])
        .collect()
}

#[test]
fn empty_source_yields_no_tokens() {
    assert!(semantic_tokens("").is_empty());
    assert!(semantic_tokens("-- only a comment\n").is_empty());
}

#[test]
fn classifies_def_example_hole_number_sort() {
    let src = "def two : Nat := 2\nexample : Sort 1 := sorry\n";
    let spans = semantic_tokens(src);
    assert_eq!(find(src, &spans, "def").kind, SemanticKind::Keyword);
    assert_eq!(find(src, &spans, "two").kind, SemanticKind::DefName);
    assert_eq!(find(src, &spans, "Nat").kind, SemanticKind::UnknownIdent);
    assert_eq!(find(src, &spans, "2").kind, SemanticKind::Number);
    assert_eq!(find(src, &spans, "example").kind, SemanticKind::Keyword);
    assert_eq!(find(src, &spans, "Sort").kind, SemanticKind::Sort);
    assert_eq!(find(src, &spans, "1").kind, SemanticKind::Number);
    assert_eq!(find(src, &spans, "sorry").kind, SemanticKind::Hole);
    // 有序且互不重叠
    for pair in spans.windows(2) {
        assert!(pair[0].span.start.offset < pair[1].span.start.offset);
        assert!(pair[0].span.end.offset <= pair[1].span.start.offset);
    }
}

#[test]
fn keyword_classification_covers_intro_and_apply_tactics() {
    // by 块的关键字（`by`/`intro`/`exact`/`apply`/`assumption`/`rfl`）都要
    // 着成 Keyword——用户报告 `exact` 不高亮（分类位置无关）。
    let src = "theorem u : (a : Prop) -> a := by intro a; exact a\n\
               theorem v : (a : Prop) -> a -> a := by intro a; intro h; assumption\n";
    let spans = semantic_tokens(src);
    for kw in ["by", "intro", "exact", "assumption"] {
        let kinds = kinds_of(src, &spans, kw);
        assert!(
            !kinds.is_empty() && kinds.iter().all(|k| *k == SemanticKind::Keyword),
            "`{kw}` must be a keyword, got {kinds:?}"
        );
    }
}

#[test]
fn keyword_table_covers_abbrev_and_the_notation_spellings() {
    // 同步项（设计 `docs/design/abbrev.md` §4、`notation-subset.md` §13.6）：
    // `abbrev`（= `def` 的 Lean 拼写）与记法相关的新拼写——第二刀的
    // `prefix`/`postfix`、第三刀的 `binder_notation`/`scoped`——必须进
    // **单一词表** `front::semantic::KEYWORDS`。TM 语法与它逐字相等
    // （守护：`crates/cli/tests/extension.rs::tm_grammar_keywords_follow_the_single_source`），
    // 所以两份词表只能同一轮改。
    for keyword in ["abbrev", "prefix", "postfix", "binder_notation", "scoped"] {
        assert!(
            keywords().contains(&keyword),
            "`{keyword}` must be in the single keyword table: {:?}",
            keywords()
        );
    }
    let src = "abbrev A : Type := Prop\n\
               prefix:100 \" ι \" => A\n\
               postfix:100 \" ᶜ \" => A\n\
               binder_notation \" ∃ \" => A\n\
               namespace Foo\n\
               scoped infix:50 \" ⊕ \" => A\n\
               end Foo\n";
    let spans = semantic_tokens(src);
    for keyword in ["abbrev", "prefix", "postfix", "binder_notation", "scoped"] {
        let kinds = kinds_of(src, &spans, keyword);
        assert!(
            !kinds.is_empty() && kinds.iter().all(|k| *k == SemanticKind::Keyword),
            "`{keyword}` must be classified as Keyword, got {kinds:?}"
        );
    }
}

#[test]
fn decl_site_vs_use_site() {
    let src = "def id : Prop -> Prop := id\n#check id\n";
    let spans = semantic_tokens(src);
    assert_eq!(
        kinds_of(src, &spans, "id"),
        vec![
            SemanticKind::DefName,
            SemanticKind::DefUse,
            SemanticKind::DefUse
        ]
    );
    assert_eq!(find(src, &spans, "#check").kind, SemanticKind::Keyword);
    assert_eq!(
        texts_of(src, &spans, SemanticKind::Sort),
        vec!["Prop", "Prop"]
    );
}

#[test]
fn theorem_and_axiom_kinds() {
    let src = "theorem t : Prop := Prop\naxiom a : Prop\n#check t\n#check a\n";
    let spans = semantic_tokens(src);
    assert_eq!(
        kinds_of(src, &spans, "t"),
        vec![SemanticKind::TheoremName, SemanticKind::TheoremUse]
    );
    assert_eq!(
        kinds_of(src, &spans, "a"),
        vec![SemanticKind::AxiomName, SemanticKind::AxiomUse]
    );
}

#[test]
fn inductive_ctor_decl_and_use() {
    let src = "\
inductive Nat : Type
ctor zero : Nat
ctor succ (n : Nat) : Nat
rec Nat.rec {u} :
  (motive : (n : Nat) -> Sort u) ->
  (mz : motive zero) ->
  (ms : (n : Nat) -> motive n -> motive (succ n)) ->
  (n : Nat) -> motive n
end
#check succ
";
    let spans = semantic_tokens(src);
    assert_eq!(find(src, &spans, "Nat").kind, SemanticKind::InductiveName);
    // zero/succ：声明一次，recursor 体内与 `#check` 中各使用一次。
    assert_eq!(
        kinds_of(src, &spans, "zero"),
        vec![SemanticKind::CtorName, SemanticKind::CtorUse]
    );
    assert_eq!(
        kinds_of(src, &spans, "succ"),
        vec![
            SemanticKind::CtorName,
            SemanticKind::CtorUse,
            SemanticKind::CtorUse
        ]
    );
    // binder 声明点 + 使用处都按文件平铺归为 Binder（v1 不做作用域感知），
    // 所以 recursor 类型里的 motive/mz/ms 也算：
    // ctor n | motive n | mz motive | ms n motive n motive n | n motive n
    assert_eq!(
        texts_of(src, &spans, SemanticKind::Binder),
        vec![
            "n", "motive", "n", "mz", "motive", "ms", "n", "motive", "n", "motive", "n", "n",
            "motive", "n"
        ]
    );
    assert!(spans.iter().any(|s| s.kind == SemanticKind::Keyword
        && &src[s.span.start.offset..s.span.end.offset] == "end"));
}

#[test]
fn binder_map_is_flat_per_file() {
    let src = "def k : Prop -> Prop := fun (x : Prop) => x\n";
    let spans = semantic_tokens(src);
    assert_eq!(texts_of(src, &spans, SemanticKind::Binder), vec!["x", "x"]);
    assert_eq!(find(src, &spans, "fun").kind, SemanticKind::Keyword);
}

#[test]
fn universe_app_levels_are_skipped() {
    let src = "def id {w} : Sort w -> Sort w := fun (x : Sort w) => x\n#check id.{w}\n";
    let spans = semantic_tokens(src);
    // `id.` 作为宇宙应用名 → DefUse；`id.{w}` 大括号里的 level 不产生 token。
    assert_eq!(find(src, &spans, "id.").kind, SemanticKind::DefUse);
    assert_eq!(texts_of(src, &spans, SemanticKind::Binder), vec!["x", "x"]);
    // 剩下的 `w`：def 头的宇宙参数 1 个 + `Sort w` 3 个，都是 UnknownIdent。
    assert_eq!(
        kinds_of(src, &spans, "w"),
        vec![SemanticKind::UnknownIdent; 4]
    );
}

#[test]
fn lex_error_keeps_collected_prefix_without_resolution() {
    let src = "def x : Prop := ?\n";
    let spans = semantic_tokens(src);
    assert_eq!(find(src, &spans, "def").kind, SemanticKind::Keyword);
    assert_eq!(find(src, &spans, "x").kind, SemanticKind::UnknownIdent);
    assert_eq!(find(src, &spans, "Prop").kind, SemanticKind::Sort);
    assert!(
        !spans.iter().any(|s| s.kind == SemanticKind::DefName),
        "lexical-only fallback must not resolve names"
    );
}

#[test]
fn parse_error_falls_back_to_lexical_only() {
    let src = "def broken : Prop :=\n";
    let spans = semantic_tokens(src);
    assert_eq!(find(src, &spans, "def").kind, SemanticKind::Keyword);
    assert_eq!(find(src, &spans, "broken").kind, SemanticKind::UnknownIdent);
    assert_eq!(find(src, &spans, "Prop").kind, SemanticKind::Sort);
}

#[test]
fn forall_is_keyword_and_non_ascii_identifiers_resolve() {
    let src = "def 🦀x : Prop := Prop\n#check 🦀x\n";
    let spans = semantic_tokens(src);
    assert_eq!(
        kinds_of(src, &spans, "🦀x"),
        vec![SemanticKind::DefName, SemanticKind::DefUse]
    );

    let src = "#check forall (a : Prop), a\n#check ∀ (b : Prop), b\n";
    let spans = semantic_tokens(src);
    assert_eq!(kinds_of(src, &spans, "forall"), vec![SemanticKind::Keyword]);
    assert_eq!(kinds_of(src, &spans, "∀"), vec![SemanticKind::Keyword]);
    assert_eq!(
        kinds_of(src, &spans, "a"),
        vec![SemanticKind::Binder, SemanticKind::Binder]
    );
    assert_eq!(
        kinds_of(src, &spans, "b"),
        vec![SemanticKind::Binder, SemanticKind::Binder]
    );
}

// ---- tag_runs / tag_expr: the shared goal-rendering classification ----

/// `(text, kind)` view of runs, dropping the plain connector fragments.
fn tagged(runs: &[Run]) -> Vec<(&str, SemanticKind)> {
    runs.iter()
        .filter_map(|r| r.kind.map(|k| (r.text.as_str(), k)))
        .collect()
}

#[test]
fn tag_runs_covers_the_whole_text_in_order() {
    let word = vec![("P".to_string(), SemanticKind::DefUse)];
    for text in ["P -> Nat", "fun (x : Nat) => x", "Sort 1", "sorry -> P"] {
        let runs = tag_runs(text, &word, &[]);
        assert_eq!(
            runs.iter().map(|r| r.text.as_str()).collect::<String>(),
            text,
            "runs must reconstruct {text:?} exactly"
        );
    }
}

#[test]
fn tag_runs_classifies_like_the_editor() {
    // `P` is a file declaration (DefUse), `x` is in scope (Binder),
    // `Nat`/`Q` are unknown to this table — same rules as the editor.
    let decls = vec![("P".to_string(), SemanticKind::DefUse)];
    let binders = vec!["x".to_string()];
    let text = "fun (x : Nat) => P -> Sort 2";
    let runs = tag_runs(text, &decls, &binders);
    assert_eq!(
        tagged(&runs),
        vec![
            ("fun", SemanticKind::Keyword),
            ("x", SemanticKind::Binder),
            ("Nat", SemanticKind::UnknownIdent),
            ("P", SemanticKind::DefUse),
            ("Sort", SemanticKind::Sort),
            ("2", SemanticKind::Number),
        ]
    );
    let runs = tag_runs("sorry -> sorry", &decls, &binders);
    assert_eq!(
        tagged(&runs),
        vec![("sorry", SemanticKind::Hole), ("sorry", SemanticKind::Hole),]
    );
}

#[test]
fn tag_expr_resolves_declarations_and_constructors_from_the_file() {
    // A goal type rendered by the kernel has no spans of its own, so the
    // declaration table comes from the document text.
    let src = "inductive Nat : Type\nctor zero : Nat\nctor succ (n : Nat) : Nat\nend\n";
    let runs = tag_expr("succ zero", src, &[]);
    assert_eq!(
        tagged(&runs),
        vec![
            ("succ", SemanticKind::CtorUse),
            ("zero", SemanticKind::CtorUse),
        ]
    );
}

/// G-02 / WO-005：内核渲染的目标文本里构造子是**规范名**（`Wrap.mk`），
/// 而源里写的是裸名；两种拼写都要归到 `ctor_use`（protocol 词汇不变）。
#[test]
fn tag_expr_classifies_canonical_and_bare_ctor_spellings() {
    let src = "inductive Wrap : Type\nctor mk : Wrap\nend\n";
    for spelling in ["Wrap.mk", "mk"] {
        let runs = tag_expr(spelling, src, &[]);
        assert_eq!(
            tagged(&runs),
            vec![(spelling, SemanticKind::CtorUse)],
            "`{spelling}` must be a ctor use"
        );
    }
    // 点号 token 也要能被 lexer 当成一个 ident（`Wrap.mk` 是一个 token）。
    assert_eq!(
        semantic_tokens("inductive Wrap : Type\nctor mk : Wrap\nend\n")
            .iter()
            .filter(|s| s.kind == SemanticKind::CtorName)
            .count(),
        1,
        "the ctor declaration name keeps its own kind"
    );
}

#[test]
fn tag_runs_degrades_on_a_lex_error_instead_of_panicking() {
    let runs = tag_runs("$", &[], &[]);
    assert_eq!(
        runs,
        vec![Run {
            text: "$".to_string(),
            kind: None,
        }]
    );
}

// ---- tm_scope / runs_to_text / goal_runs: the canonical kind→scope
// table and the one goal-block content producer ----

#[test]
fn tm_scope_is_total() {
    // Exact scope per kind, in `ALL` declaration order — locks the table so
    // a new kind cannot silently land in the wrong TextMate group.
    let expected = [
        "keyword.other.sokonanoda",
        "storage.type.sokonanoda",
        "constant.numeric.sokonanoda",
        "markup.inserted.sokonanoda",
        "entity.name.function.sokonanoda",
        "entity.name.function.sokonanoda",
        "entity.name.type.sokonanoda",
        "storage.type.sokonanoda",
        "entity.name.type.sokonanoda",
        "variable.parameter.sokonanoda",
        "entity.name.function.sokonanoda",
        "entity.name.function.sokonanoda",
        "entity.name.type.sokonanoda",
        "storage.type.sokonanoda",
        "entity.name.type.sokonanoda",
        "variable.other.sokonanoda",
    ];
    let all = SemanticKind::all();
    let got: Vec<&str> = all.iter().map(|k| k.tm_scope()).collect();
    assert_eq!(got, expected, "tm_scope table drifted from ALL");
    // Total and namespaced: every kind has a non-empty `.sokonanoda` scope.
    for (kind, scope) in all.iter().zip(&got) {
        assert!(!scope.is_empty(), "{kind:?} has an empty scope");
        assert!(
            scope.ends_with(".sokonanoda"),
            "{kind:?} scope is not namespaced: {scope:?}"
        );
    }
    // Unique where expected: the exact set of distinct scopes is the
    // documented 8 groups (no accidental cross-group sharing).
    let mut unique = got.clone();
    unique.sort_unstable();
    unique.dedup();
    assert_eq!(unique.len(), 8, "distinct tm_scope count: {unique:?}");
}

#[test]
fn runs_to_text_round_trips() {
    // The projection of `tag_runs`'s output is exactly its input.
    let decls = vec![("P".to_string(), SemanticKind::DefUse)];
    let binders = vec!["x".to_string()];
    for text in ["P -> Nat", "fun (x : Nat) => x", "Sort 1", "sorry -> P"] {
        let runs = tag_runs(text, &decls, &binders);
        assert_eq!(runs_to_text(&runs), text, "round trip of {text:?}");
    }
}

#[test]
fn goal_runs_projects_to_hypothesis_lines_then_turnstile() {
    let binders = vec![
        ("a".to_string(), "Prop".to_string()),
        ("h".to_string(), "And a a".to_string()),
    ];
    let text = goal_text(&binders, "a");
    assert_eq!(text, "a : Prop\nh : And a a\n⊢ a");
    let decls = vec![("And".to_string(), SemanticKind::AxiomUse)];
    let runs = goal_runs(&binders, "a", &decls);
    // The invariant that keeps hover and Infoview identical: the runs'
    // text projection is the plain block text.
    assert_eq!(runs_to_text(&runs), text);
    // Same classification rules as the editor/wire: hypothesis names are
    // binders (and so is the goal's `a`), `Prop` is a sort, `And` is the
    // declared axiom.
    let tagged = tagged(&runs);
    assert!(tagged
        .iter()
        .any(|(t, k)| *t == "a" && *k == SemanticKind::Binder));
    assert!(tagged
        .iter()
        .any(|(t, k)| *t == "Prop" && *k == SemanticKind::Sort));
    assert!(tagged
        .iter()
        .any(|(t, k)| *t == "And" && *k == SemanticKind::AxiomUse));
    // The turnstile stays a plain run (it is not a source token).
    assert!(runs.iter().any(|r| r.kind.is_none() && r.text == "⊢ "));
}

#[test]
fn goal_runs_with_no_hypotheses_is_just_the_turnstile_goal() {
    let runs = goal_runs(&[], "P -> P", &[]);
    assert_eq!(runs_to_text(&runs), "⊢ P -> P");
}

// ---- 记法（G-04 / WO-011，设计 §4）：符号归 Keyword、未声明不产 run ----

#[test]
fn a_declared_notation_symbol_is_a_keyword() {
    let src = "def mem : Prop -> Prop -> Prop := fun (a : Prop) => fun (b : Prop) => a\n\
               infix:50 \" ∈ \" => mem\n\
               def p (a : Prop) (A : Prop) : Prop := a ∈ A\n";
    let spans = semantic_tokens(src);
    // 使用点（`a ∈ A`）的符号是 `Sym` token ⇒ Keyword（与 `∀` 同族）。
    // `kinds_of` 按**源码切片**匹配，所以它也会命中声明行字符串字面量里的
    // 那一个 `∈`——那里是 `Str` token 的内部，`classify` 按 offset 切出的
    // 是 `UnknownIdent`（`Str` 不产 run，但它的字节仍落在文本里）。
    // 这里只钉**使用点**（`Sym` token）的分类。
    let use_offset = src.rfind("a ∈ A").expect("use site") + 2;
    let use_span = spans
        .iter()
        .find(|s| s.span.start.offset == use_offset)
        .expect("a run for the used symbol");
    assert_eq!(use_span.kind, SemanticKind::Keyword);
    // `infix` 是关键字。
    assert_eq!(find(src, &spans, "infix").kind, SemanticKind::Keyword);
    // 目标名 `mem` 在记法命令里仍是它的 def_use。
    assert_eq!(
        kinds_of(src, &spans, "mem"),
        vec![SemanticKind::DefName, SemanticKind::DefUse]
    );
}

#[test]
fn an_undeclared_symbol_produces_no_semantic_run() {
    // `⊢`（U+22A2）落在数学符号码点类里，但它只是**内核渲染文本**里的
    // turnstile：未声明 ⇒ 不产 run（与 `->`/`=>` 一致）。否则 goal 面板
    // 会被染成「未知标识符」（设计 §3.4）。
    let src = "def p : Prop := Prop\n";
    let spans = semantic_tokens(src);
    assert!(
        spans
            .iter()
            .all(|s| &src[s.span.start.offset..s.span.end.offset] != "⊢"),
        "the turnstile must not become a semantic run: {spans:?}"
    );
    // 同一个 token 直接分类时也不产 run（`a` 仍是 UnknownIdent——那是
    // 既有行为，与本刀无关；这里只钉 turnstile）。
    let tagged = tag_runs("⊢ a", &[], &[]);
    assert_eq!(
        tagged.first(),
        Some(&Run {
            text: "⊢".to_string(),
            kind: None,
        }),
        "tag_runs must leave the turnstile plain: {tagged:?}"
    );
    assert_eq!(runs_to_text(&tagged), "⊢ a");
}

#[test]
fn notation_does_not_add_a_semantic_kind() {
    // v1 **不新增** `SemanticKind`：锁表逐字不变（设计 §4）。
    assert_eq!(SemanticKind::all().len(), 16);
}

#[test]
fn semantic_kind_wire_names_are_unique() {
    let mut names: Vec<&str> = SemanticKind::all().iter().map(|k| k.as_str()).collect();
    assert!(names
        .iter()
        .all(|n| n.chars().all(|c| c.is_ascii_lowercase() || c == '_')));
    names.sort_unstable();
    names.dedup();
    assert_eq!(
        names.len(),
        SemanticKind::all().len(),
        "wire names must be unique"
    );
}
