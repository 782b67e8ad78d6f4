//! A project compilation's report and the view assembled from it.

use front::query::ProjectView;
use front::report::{
    ModuleReport, ModuleStatus, ProjectDiagnostic, ProjectErrorKind, ProjectKind, ProjectReport,
    ProjectWarningKind,
};
use front::span::{Pos, Span};

fn outcome(name: &str, status: ModuleStatus, imports: &[&str], sizes: [usize; 4]) -> ModuleReport {
    ModuleReport {
        name: name.to_string(),
        path: format!("/course/{name}.sokonanoda"),
        status,
        imports: imports.iter().map(|s| s.to_string()).collect(),
        decls: sizes[0],
        errors: sizes[1],
        warnings: sizes[2],
        open_exercises: sizes[3],
    }
}

fn diagnostic(kind: ProjectKind, module: &str, message: &str, span: Option<Span>) -> ProjectDiagnostic {
    ProjectDiagnostic {
        kind,
        message: message.to_string(),
        module: module.to_string(),
        path: None,
        span,
    }
}

#[test]
fn project_view_counts_states_and_explains_modules_that_did_not_compile() {
    let span = Span::new(Pos { offset: 0, line: 1, column: 1 }, Pos { offset: 8, line: 1, column: 9 });
    let report = ProjectReport {
        root: "/course".to_string(),
        manifest: Some("/course/sokonanoda.toml".to_string()),
        requires_warning: None,
        modules: vec![
            outcome("Missing", ModuleStatus::LoadFailed, &[], [0, 0, 0, 0]),
            outcome("Lib", ModuleStatus::Compiled, &[], [3, 0, 1, 2]),
            outcome("Mid", ModuleStatus::Blocked, &["Missing"], [0, 0, 0, 0]),
            outcome("Main", ModuleStatus::Compiled, &["Lib", "Mid"], [2, 1, 0, 0]),
        ],
        diagnostics: vec![
            diagnostic(ProjectKind::Warning(ProjectWarningKind::ImportHasOpenExercises), "Main", "open", None),
            diagnostic(ProjectKind::Error(ProjectErrorKind::ImportNotFound), "Mid", "first", Some(span)),
            diagnostic(ProjectKind::Error(ProjectErrorKind::ImportDependencyFailed), "Mid", "second", None),
        ],
    };
    let view = ProjectView::from_report(&report);
    assert_eq!(view.entry, "Main");
    assert_eq!(view.root, "/course");
    assert_eq!(view.manifest.as_deref(), Some("/course/sokonanoda.toml"));
    assert_eq!(view.requires_warning, None);
    let statuses: Vec<&str> = view.modules.iter().map(|m| m.status.as_str()).collect();
    assert_eq!(statuses, vec!["load-failed", "compiled", "blocked", "compiled"]);
    let entries: Vec<bool> = view.modules.iter().map(|m| m.entry).collect();
    assert_eq!(entries, vec![false, false, false, true]);
    // A module that did not compile is explained by its first diagnostic;
    // a compiled one carries no message even when diagnostics name it.
    assert_eq!(view.modules[2].message.as_deref(), Some("first"));
    assert_eq!(view.modules[0].message, None);
    assert_eq!(view.modules[3].message, None);
    assert_eq!(view.modules[3].imports, vec!["Lib".to_string(), "Mid".to_string()]);
    assert_eq!(view.modules[1].path, "/course/Lib.sokonanoda");
    let c = &view.counts;
    assert_eq!((c.modules, c.compiled, c.failed, c.blocked), (4, 2, 1, 1));
    assert_eq!((c.decls, c.errors, c.warnings, c.open_exercises), (5, 1, 1, 2));
    assert_eq!(view.diagnostics.len(), 3);
    assert_eq!(view.diagnostics[0].severity, "warning");
    assert_eq!(view.diagnostics[0].code, "import-has-open-exercises");
    assert_eq!((view.diagnostics[0].start, view.diagnostics[0].end), (0, 0));
    assert_eq!(view.diagnostics[1].severity, "error");
    assert_eq!(view.diagnostics[1].code, "import-not-found");
    assert_eq!((view.diagnostics[1].start, view.diagnostics[1].end), (0, 8));
    assert_eq!(view.diagnostics[2].module, "Mid");
}

#[test]
fn project_view_of_no_modules_has_an_empty_entry() {
    let report = ProjectReport {
        root: "/r".to_string(),
        manifest: None,
        requires_warning: Some("version".to_string()),
        modules: Vec::new(),
        diagnostics: Vec::new(),
    };
    let view = ProjectView::from_report(&report);
    assert_eq!(view.entry, "");
    assert_eq!(view.manifest, None);
    assert_eq!(view.requires_warning.as_deref(), Some("version"));
    assert_eq!(view.counts.modules, 0);
    assert!(view.modules.is_empty());
}

fn two_modules(sizes_lib: [usize; 4], diagnostics: Vec<ProjectDiagnostic>) -> ProjectReport {
    ProjectReport {
        root: "/r".to_string(),
        manifest: None,
        requires_warning: Some("requires 9.9".to_string()),
        modules: vec![
            outcome("Lib", ModuleStatus::Compiled, &[], sizes_lib),
            outcome("Main", ModuleStatus::Compiled, &["Lib"], [1, 0, 0, 0]),
        ],
        diagnostics,
    }
}

#[test]
fn a_project_is_clean_without_diagnostics_errors_or_warnings() {
    // A version note alone does not make a project unclean.
    let clean = two_modules([2, 0, 0, 1], Vec::new());
    assert!(clean.is_clean());
    assert!(!clean.has_errors());
    assert_eq!(clean.entry_module().map(|m| m.name.as_str()), Some("Main"));
    assert_eq!(clean.module("Lib").map(|m| m.decls), Some(2));
    assert!(clean.module("Other").is_none());
    // A warning in a module's report.
    assert!(!two_modules([2, 0, 1, 0], Vec::new()).is_clean());
    // A project-level warning is no error, but the project is not clean.
    let warned = two_modules(
        [2, 0, 0, 0],
        vec![diagnostic(ProjectKind::Warning(ProjectWarningKind::ImportHasOpenExercises), "Main", "w", None)],
    );
    assert!(!warned.has_errors());
    assert!(!warned.is_clean());
    let failed = two_modules(
        [2, 0, 0, 0],
        vec![diagnostic(ProjectKind::Error(ProjectErrorKind::ImportCycle), "Main", "e", None)],
    );
    assert!(failed.has_errors());
    assert!(!failed.is_clean());
}
