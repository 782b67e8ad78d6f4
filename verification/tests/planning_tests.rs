use std::path::PathBuf;

use front::ast::{Expr, SortKind};
use front::draft::ProofState;
use front::graph::module_name_from_path_texts;
use front::manifest::{validate_manifest, ManifestError};
use front::plan::{admit_key, manifest_invalid_diagnostic, merge_diagnostics, root_source, RootSource};
use front::report::{ProjectDiagnostic, ProjectErrorKind, ProjectKind};
use front::span::{Pos, Span};

fn diag(module: &str, message: &str) -> ProjectDiagnostic {
    ProjectDiagnostic {
        kind: ProjectKind::Error(ProjectErrorKind::ImportNotFound),
        message: message.to_string(),
        module: module.to_string(),
        path: None,
        span: None,
    }
}

#[test]
fn merged_diagnostics_keep_each_module_and_message_once() {
    let mut known = vec![diag("A", "x")];
    merge_diagnostics(&mut known, vec![diag("A", "x"), diag("B", "x"), diag("A", "y"), diag("B", "x")]);
    let pairs: Vec<(String, String)> = known.iter().map(|d| (d.module.clone(), d.message.clone())).collect();
    assert_eq!(
        pairs,
        vec![
            ("A".to_string(), "x".to_string()),
            ("B".to_string(), "x".to_string()),
            ("A".to_string(), "y".to_string()),
        ]
    );
}

#[test]
fn keys_are_admitted_once() {
    let mut seen = Vec::new();
    assert!(admit_key(&mut seen, "a".to_string()));
    assert!(admit_key(&mut seen, "b".to_string()));
    assert!(!admit_key(&mut seen, "a".to_string()));
    assert_eq!(seen, vec!["a".to_string(), "b".to_string()]);
}

#[test]
fn root_source_prefers_override_then_manifest() {
    assert_eq!(root_source(true, true, true), RootSource::Override);
    assert_eq!(root_source(false, true, true), RootSource::Manifest);
    assert_eq!(root_source(false, true, false), RootSource::InvalidManifest);
    assert_eq!(root_source(false, false, false), RootSource::EntryDirectory);
}

#[test]
fn invalid_manifest_diagnostic_names_the_path() {
    let err = ManifestError {
        path: PathBuf::from("/p/sokonanoda.toml"),
        message: "bad".to_string(),
        hint: String::new(),
    };
    let d = manifest_invalid_diagnostic(err, "/p/sokonanoda.toml", "Main".to_string());
    assert_eq!(d.message, "/p/sokonanoda.toml：bad");
    assert_eq!(d.module, "Main");
    assert_eq!(d.kind, ProjectKind::Error(ProjectErrorKind::ManifestInvalid));
    assert!(d.span.is_none());
}

#[test]
fn manifest_src_is_checked_with_the_platform_answer() {
    let path = std::path::Path::new("/p/sokonanoda.toml");
    assert!(validate_manifest(path, None, None, Some("src".to_string()), false).is_ok());
    assert!(validate_manifest(path, None, None, Some("src".to_string()), true).is_err());
    assert!(validate_manifest(path, None, None, Some("../x".to_string()), false).is_err());
    assert!(validate_manifest(path, None, None, Some(String::new()), false).is_err());
    assert!(validate_manifest(path, None, None, None, true).is_ok());
}

#[test]
fn module_name_from_texts_prefers_the_relative_path() {
    assert_eq!(module_name_from_path_texts(Some("Foo/Bar".to_string()), None), "Foo.Bar");
    assert_eq!(module_name_from_path_texts(None, Some("Stem".to_string())), "Stem");
    assert_eq!(module_name_from_path_texts(None, None), "Main");
}

#[test]
fn exact_term_fills_the_hole_once() {
    let span = Span::new(Pos { offset: 0, line: 1, column: 1 }, Pos { offset: 0, line: 1, column: 1 });
    let mut p = ProofState::start_with_goal(Expr::Sort { sort: SortKind::Prop, span }, "Prop");
    assert_eq!(p.goal_text(), "Prop");
    assert!(p.exact_term(Expr::Ident { name: "p".to_string(), span }).is_ok());
    assert_eq!(p.lambda_text(), "p");
    assert!(p.exact_term(Expr::Ident { name: "q".to_string(), span }).is_err());
    assert!(p.undo());
    assert!(!p.done());
}
