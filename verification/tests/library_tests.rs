//! Concrete checks of the library's laws, edge cases and error variants.

use std::path::{Path, PathBuf};

use front::ast::{effective_commands, Command, Expr, FolFile, SortKind};
use front::draft::{parse_expr_text, peel_pi_layers, render_expr, render_lambda_for_example, ProofError, ProofState};
use front::graph::{
    module_name_from_relative, module_name_of_path, propagate_blocked, scan_import_lines, Closure,
    ClosureLoader, LoadRequest, LoadedModule,
};
use front::manifest::{check_manifest, module_root, version_warning, Manifest, VERSION};
use front::module_name::ModuleName;
use front::parser::{parse, tokenize};
use front::query::{line_col_of, offset_of_line_col, span_offsets, QueryError};
use front::references::decl_name_span;
use front::report::{ModuleStatus, ProjectErrorKind, ProjectKind, ProjectWarningKind};
use front::resolve::{Lookup, MissingModule};
use front::semantic::{declaration_kinds, goal_text, runs_to_text, tag_runs, SemanticKind};
use front::session::SessionEventKind;
use front::span::{Pos, Span};

fn expr_of(src: &str) -> Expr {
    parse_expr_text(src).expect("expression parses")
}

#[test]
fn undo_restores_the_draft_before_each_tactic() {
    let mut p = ProofState::start("(a : Prop) -> a -> a").unwrap();
    let texts = (p.goal_text(), p.lambda_text());
    p.intro("a").unwrap();
    let after_first = (p.goal_text(), p.lambda_text());
    p.intro("h").unwrap();
    p.exact("h").unwrap();
    assert!(p.undo());
    assert!(p.undo());
    assert_eq!((p.goal_text(), p.lambda_text()), after_first);
    assert!(p.undo());
    assert_eq!((p.goal_text(), p.lambda_text()), texts);
    assert!(!p.undo());
}

#[test]
fn failed_tactics_leave_the_draft_and_its_history_alone() {
    let mut p = ProofState::start("Prop").unwrap();
    assert_eq!(p.intro("x"), Err(ProofError::NotABinder));
    assert!(!p.undo(), "a failed intro records no step");
    let mut p = ProofState::start("Prop -> Prop").unwrap();
    p.intro("x").unwrap();
    p.exact("x").unwrap();
    assert_eq!(p.exact("x"), Err(ProofError::NoHole));
    assert_eq!(p.lambda_text(), "fun (x : Prop) => x");
    assert!(p.undo());
    assert!(!p.done());
}

#[test]
fn draft_parse_errors_are_reported() {
    assert!(matches!(ProofState::start("("), Err(ProofError::Parse(_))));
    let mut p = ProofState::start("Prop -> Prop").unwrap();
    p.intro("x").unwrap();
    assert!(matches!(p.exact("("), Err(ProofError::Parse(_))));
    assert!(!p.done());
    assert_eq!(ProofError::NoHole.message(), "there is no open hole; use `done`");
    assert_eq!(
        ProofError::Mismatch {
            expected: "a".to_string(),
            actual: "b".to_string()
        }
        .message(),
        "类型不匹配：期望 `a`，实际是 `b`"
    );
}

#[test]
fn intro_on_a_group_takes_the_first_binder() {
    let mut p = ProofState::start("∀ (a b : Prop), a").unwrap();
    p.intro("ignored").unwrap();
    assert_eq!(p.lambda_text(), "fun (a : Prop) => sorry");
    assert_eq!(p.goal_source(), "∀ (a b : Prop), a");
}

#[test]
fn peel_counts_binders_of_groups_and_arrows() {
    let ty = expr_of("(a : Prop) -> (b : Prop) -> a");
    assert!(peel_pi_layers(&ty, 0).is_some());
    assert_eq!(render_expr(&peel_pi_layers(&ty, 2).unwrap()), "a");
    assert!(peel_pi_layers(&ty, 3).is_none());
    let group = expr_of("∀ (a b : Prop), a");
    assert_eq!(
        render_expr(&peel_pi_layers(&group, 1).unwrap()),
        "(b : Prop) -> a"
    );
    assert!(peel_pi_layers(&expr_of("Prop"), 1).is_none());
}

#[test]
fn render_expr_reads_back_the_same_shapes() {
    assert_eq!(render_expr(&expr_of("Sort 3")), "Sort 3");
    assert_eq!(render_expr(&expr_of("Type 2")), "Sort 3");
    assert_eq!(render_expr(&expr_of("Prop -> Prop -> Prop")), "Prop -> Prop -> Prop");
    assert_eq!(render_expr(&expr_of("(Prop -> Prop) -> Prop")), "(Prop -> Prop) -> Prop");
    assert_eq!(render_expr(&expr_of("f (g x) y")), "f (g x) y");
    assert_eq!(
        render_expr(&expr_of("let x : Prop := Prop; x")),
        "let x : Prop := Prop; x"
    );
    let text = render_expr(&expr_of("fun (x : Prop) => x"));
    assert_eq!(text, "fun (x : Prop) => x");
    assert_eq!(render_expr(&expr_of(&text)), text);
}

#[test]
fn example_source_carries_the_goal_and_the_term() {
    let mut p = ProofState::start("Prop -> Prop").unwrap();
    p.intro("x").unwrap();
    p.exact("x").unwrap();
    assert_eq!(
        render_lambda_for_example(&p, "Prop -> Prop", "axiom A : Prop"),
        "axiom A : Prop\nexample : Prop -> Prop := fun (x : Prop) => x"
    );
}

#[test]
fn version_warning_names_both_versions() {
    let manifest = Manifest {
        required_version: Some("9.9".to_string()),
        ..Manifest::default()
    };
    assert_eq!(
        version_warning(&manifest).unwrap(),
        format!("项目清单要求 sokonanoda 9.9，当前是 {VERSION}（版本不一致可能带来行为差异）。")
    );
    let same_minor = Manifest {
        required_version: Some("0.56".to_string()),
        ..Manifest::default()
    };
    assert_eq!(version_warning(&same_minor), None);
}

#[test]
fn manifest_src_must_stay_below_the_manifest() {
    let path = Path::new("/p/sokonanoda.toml");
    assert!(check_manifest(path, None, None, None).is_ok());
    let ok = check_manifest(path, Some("p".into()), None, Some("src".into())).unwrap();
    assert_eq!(ok.name.as_deref(), Some("p"));
    assert_eq!(ok.src.as_deref(), Some("src"));
    for bad in ["", "../escape", "a/../b", "..", "/abs"] {
        let err = check_manifest(path, None, None, Some(bad.into())).unwrap_err();
        assert!(err.message.contains("不是合法的模块根"), "{bad}: {}", err.message);
        assert_eq!(err.path, PathBuf::from("/p/sokonanoda.toml"));
    }
    assert!(check_manifest(path, None, None, Some("a..b".into())).is_ok());
}

#[test]
fn module_root_joins_the_manifest_directory_and_src() {
    let path = "/p/sokonanoda.toml";
    let with_src = Manifest {
        src: Some("src".to_string()),
        ..Manifest::default()
    };
    assert_eq!(PathBuf::from(module_root(path, &with_src)), PathBuf::from("/p/src"));
    assert_eq!(PathBuf::from(module_root(path, &Manifest::default())), PathBuf::from("/p"));
}

#[test]
fn stable_codes_of_the_vocabularies() {
    assert_eq!(ModuleStatus::Compiled.code(), "compiled");
    assert_eq!(ModuleStatus::LoadFailed.code(), "load-failed");
    assert_eq!(ModuleStatus::Blocked.code(), "blocked");
    assert_eq!(QueryError::NotParsable.code(), "not-parsable");
    assert_eq!(QueryError::OutsideDeclarations.code(), "outside-declarations");
    assert_eq!(QueryError::PositionOutOfRange.code(), "position-out-of-range");
    assert_eq!(QueryError::PositionOutOfRange.message(), "位置超出源文本范围");
    assert_eq!(SessionEventKind::ExerciseSolved.code(), "exercise.solved");
    let error = ProjectKind::Error(ProjectErrorKind::ImportCycle);
    assert_eq!(error.code(), "import-cycle");
    assert!(error.is_error());
    let warning = ProjectKind::Warning(ProjectWarningKind::ImportHasOpenExercises);
    assert_eq!(warning.code(), "import-has-open-exercises");
    assert!(!warning.is_error());
}

fn module(name: &str, imports: &[&str], failed: bool) -> LoadedModule {
    LoadedModule {
        name: name.to_string(),
        path: PathBuf::from(format!("{name}.sokonanoda")),
        file: FolFile {
            commands: Vec::new(),
            src: String::new(),
        },
        imports: imports
            .iter()
            .map(|dep| (dep.to_string(), Span::default()))
            .collect(),
        failed,
        blocked: false,
    }
}

fn closure_of(modules: Vec<LoadedModule>) -> Closure {
    Closure {
        modules,
        diagnostics: Vec::new(),
        entry: "C".to_string(),
        notations: Vec::new(),
    }
}

#[test]
fn a_failed_module_blocks_everything_downstream_once() {
    let mut closure = closure_of(vec![
        module("A", &[], true),
        module("B", &["A"], false),
        module("D", &[], false),
        module("C", &["D", "B"], false),
    ]);
    let mut extra = Vec::new();
    propagate_blocked(&mut closure, &mut extra);
    let blocked: Vec<bool> = closure.modules.iter().map(|m| m.blocked).collect();
    assert_eq!(blocked, vec![false, true, false, true]);
    assert_eq!(extra.len(), 2);
    assert!(extra.iter().all(|d| d.code() == "import-dependency-failed"));
    assert_eq!(extra[1].module, "C");
    assert!(extra[1].message.contains("`B`"));
    assert_eq!(closure.compilable(), vec![2]);
    assert_eq!(closure.module_index("D"), Some(2));
    assert_eq!(closure.module_index("E"), None);
    // Repeating the propagation changes nothing.
    let mut again = Vec::new();
    propagate_blocked(&mut closure, &mut again);
    assert!(again.is_empty());
}

#[test]
fn module_names_of_paths() {
    assert_eq!(
        module_name_of_path("/r", "/r/Lesson/Logic.sokonanoda"),
        "Lesson.Logic"
    );
    assert_eq!(
        module_name_of_path("/r", "/x/Foo.sokonanoda"),
        "Foo"
    );
    assert_eq!(module_name_from_relative("./a/b/"), "a.b");
    assert_eq!(module_name_from_relative("a\\b"), "a.b");
    assert_eq!(module_name_from_relative("a/../b"), "Main");
    assert_eq!(module_name_from_relative(""), "Main");
}

#[test]
fn import_lines_are_found_without_parsing() {
    let text = "import A\n  import B.C\ndef x : Prop := Prop\nimport D extra\nimport\n";
    let found: Vec<(String, usize, usize)> = scan_import_lines(text)
        .into_iter()
        .map(|(name, span)| (name, span.start.offset, span.start.line))
        .collect();
    assert_eq!(
        found,
        vec![("A".to_string(), 0, 1), ("B.C".to_string(), 11, 2)]
    );
}

fn lookup_found(path: &str) -> Lookup {
    Lookup::Found(PathBuf::from(path))
}

#[test]
fn the_loader_visits_dependencies_first_and_reports_what_is_missing() {
    let mut loader = ClosureLoader::start(
        "Main".to_string(),
        PathBuf::from("Main.sokonanoda"),
        Some("import A\nimport B\ndef x : Prop := Prop\n".to_string()),
    );
    assert!(matches!(loader.request(), LoadRequest::Resolve(name) if name.as_str() == "A"));
    loader.supply_lookup(lookup_found("A.sokonanoda"));
    assert!(matches!(loader.request(), LoadRequest::Read(path) if path == &PathBuf::from("A.sokonanoda")));
    loader.supply_text(Ok("def a : Prop := Prop\n".to_string()));
    assert!(matches!(loader.request(), LoadRequest::Resolve(name) if name.as_str() == "B"));
    loader.supply_lookup(Lookup::Missing(MissingModule {
        module: "B".to_string(),
        expected: PathBuf::from("B.sokonanoda"),
        case_mismatch: None,
        dash_candidates: Vec::new(),
    }));
    assert!(matches!(loader.request(), LoadRequest::Done));
    let closure = loader.finish();
    let names: Vec<&str> = closure.modules.iter().map(|m| m.name.as_str()).collect();
    assert_eq!(names, vec!["A", "Main"]);
    assert!(closure.modules[1].failed);
    let codes: Vec<&str> = closure.diagnostics.iter().map(|d| d.code()).collect();
    assert_eq!(codes, vec!["import-not-found"]);
    assert!(closure.diagnostics[0].message.contains("找不到模块 `B`"));
}

#[test]
fn the_loader_reports_a_cycle_on_the_closing_import() {
    let mut loader = ClosureLoader::start(
        "Main".to_string(),
        PathBuf::from("Main.sokonanoda"),
        Some("import A\n".to_string()),
    );
    loader.supply_lookup(lookup_found("A.sokonanoda"));
    loader.supply_text(Ok("import Main\n".to_string()));
    assert!(matches!(loader.request(), LoadRequest::Resolve(name) if name.as_str() == "Main"));
    loader.supply_lookup(lookup_found("Main.sokonanoda"));
    assert!(matches!(loader.request(), LoadRequest::Done));
    let closure = loader.finish();
    let cycle = closure
        .diagnostics
        .iter()
        .find(|d| d.code() == "import-cycle")
        .expect("a cycle diagnostic");
    assert_eq!(cycle.message, "import 成环：Main → A → Main");
    assert_eq!(cycle.module, "A");
    let names: Vec<&str> = closure.modules.iter().map(|m| m.name.as_str()).collect();
    assert_eq!(names, vec!["A", "Main"]);
    // `Main` is downstream of the failed `A`.
    assert!(closure.modules[0].failed);
    assert!(closure.modules[1].blocked);
}

#[test]
fn the_loader_reuses_a_module_and_passes_notations_on() {
    let mut loader = ClosureLoader::start(
        "Main".to_string(),
        PathBuf::from("Main.sokonanoda"),
        None,
    );
    assert!(matches!(loader.request(), LoadRequest::Read(_)));
    loader.supply_text(Ok(
        "import Lib\nimport Lib\ndef p (a : Prop) : Prop := a ⊕ a\n".to_string(),
    ));
    loader.supply_lookup(lookup_found("Lib.sokonanoda"));
    loader.supply_text(Ok(
        "axiom Xor : Prop -> Prop -> Prop\ninfixl:65 \" ⊕ \" => Xor\n".to_string(),
    ));
    assert!(matches!(loader.request(), LoadRequest::Done));
    let closure = loader.finish();
    assert!(closure.diagnostics.is_empty(), "{:?}", closure.diagnostics);
    assert_eq!(closure.modules.len(), 2);
    assert_eq!(closure.modules[1].imports.len(), 1);
    assert_eq!(closure.notations.len(), 1);
    assert_eq!(closure.notations[0].module.as_deref(), Some("Lib"));
}

#[test]
fn an_unreadable_entry_is_a_failed_module() {
    let mut loader = ClosureLoader::start("Main".to_string(), PathBuf::from("Main.sokonanoda"), None);
    loader.supply_text(Err("no such file".to_string()));
    let closure = loader.finish();
    assert_eq!(closure.modules.len(), 1);
    assert!(closure.modules[0].failed);
    assert!(closure.diagnostics[0].message.contains("no such file"));
}

#[test]
fn positions_at_the_edges() {
    assert_eq!(line_col_of("", 0), (1, 1));
    assert_eq!(line_col_of("ab\ncd", 3), (2, 1));
    assert_eq!(line_col_of("ab", 99), (1, 3));
    assert_eq!(offset_of_line_col("ab\ncd", 1, 9), Some(2), "clamped to the line's end");
    assert_eq!(offset_of_line_col("ab\ncd", 2, 9), Some(5));
    assert_eq!(offset_of_line_col("ab\ncd", 3, 1), None);
    assert_eq!(offset_of_line_col("ab", 1, 0), None);
    let span = Span {
        start: Pos { offset: 3, line: 1, column: 4 },
        end: Pos { offset: 7, line: 1, column: 8 },
    };
    assert_eq!(span_offsets(span), (3, 7));
}

#[test]
fn declaration_names_fall_back_to_the_last_segment() {
    let doc = "inductive Wrap : Type\nctor mk : Wrap\nend\n";
    let file = parse(doc).unwrap();
    let Command::InductiveBlock { span, .. } = &file.commands[0] else {
        panic!("an inductive block");
    };
    let found = decl_name_span(doc, *span, "Wrap.mk").expect("the ctor's source token");
    assert_eq!(&doc[found.start.offset..found.end.offset], "mk");
    assert!(decl_name_span(doc, *span, "Other").is_none());
}

#[test]
fn declaration_table_lists_both_constructor_spellings() {
    let kinds = declaration_kinds("inductive Wrap : Type\nctor mk : Wrap\nend\ndef w : Wrap := mk\n");
    assert_eq!(
        kinds,
        vec![
            ("Wrap".to_string(), SemanticKind::InductiveUse),
            ("mk".to_string(), SemanticKind::CtorUse),
            ("Wrap.mk".to_string(), SemanticKind::CtorUse),
            ("w".to_string(), SemanticKind::DefUse),
        ]
    );
    assert!(declaration_kinds("def broken :=").is_empty());
}

#[test]
fn runs_and_goal_text_round_trip() {
    let text = "fun (x : Nat) => x -- done";
    assert_eq!(runs_to_text(&tag_runs(text, &[], &[])), text);
    assert_eq!(goal_text(&[], "P"), "⊢ P");
}

#[test]
fn open_in_wrappers_are_seen_through() {
    let file = parse("namespace Foo\ndef x : Prop := Prop\nend Foo\nopen Foo in def y : Prop := x\n").unwrap();
    let effective = effective_commands(&file);
    assert!(matches!(effective[3], Command::Def { name, .. } if name == "y"));
    assert!(matches!(&file.commands[3], Command::OpenIn { .. }));
}

#[test]
fn tokenize_reports_an_unknown_character() {
    let tokens = tokenize("def x : Prop := Prop").expect("lexes");
    assert!(tokens.len() > 1);
    assert!(tokenize("def x := $").is_err());
}

#[test]
fn module_names_clone_and_compare() {
    let name = ModuleName::parse("A.B").unwrap();
    let copy = name.clone();
    assert_eq!(copy, name);
    assert_eq!(copy.as_str(), "A.B");
}

#[test]
fn sorts_render_with_levels() {
    let Expr::Sort { sort, .. } = expr_of("Sort (u+1)") else {
        panic!("a sort");
    };
    assert_eq!(sort, SortKind::Level("u+1".to_string()));
    assert_eq!(render_expr(&expr_of("Sort (u+1)")), "Sort (u+1)");
    assert_eq!(render_expr(&expr_of("Sort u")), "Sort u");
}
