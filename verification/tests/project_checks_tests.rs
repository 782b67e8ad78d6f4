//! The closure-level rules applied after checking.

use std::path::PathBuf;

use front::graph::{Closure, ClosureLoader};
use front::project_checks::{block_on_compile_failures, collect_open_exercise_warnings};
use front::report::{ModuleReport, ModuleStatus};
use front::resolve::Lookup;

fn found(path: &str) -> Lookup {
    Lookup::Found(PathBuf::from(path))
}

/// Main imports Lib and Mid; Mid imports Bad.
fn closure() -> Closure {
    let mut loader = ClosureLoader::start(
        "Main".to_string(),
        PathBuf::from("Main.sokonanoda"),
        Some("import Lib\nimport Mid\n".to_string()),
    );
    loader.supply_lookup(found("Lib.sokonanoda"));
    loader.supply_text(Ok("axiom a : Prop\n".to_string()));
    loader.supply_lookup(found("Mid.sokonanoda"));
    loader.supply_text(Ok("import Bad\n".to_string()));
    loader.supply_lookup(found("Bad.sokonanoda"));
    loader.supply_text(Ok("axiom b : Prop\n".to_string()));
    loader.finish()
}

fn report(name: &str, errors: usize, open_exercises: usize) -> ModuleReport {
    ModuleReport {
        name: name.to_string(),
        path: format!("/p/{name}.sokonanoda"),
        status: ModuleStatus::Compiled,
        imports: Vec::new(),
        decls: 1,
        errors,
        warnings: 0,
        open_exercises,
    }
}

#[test]
fn open_exercises_warn_on_each_importing_line() {
    let closure = closure();
    let names: Vec<&str> = closure.modules.iter().map(|m| m.name.as_str()).collect();
    assert_eq!(names, vec!["Lib", "Bad", "Mid", "Main"]);
    let reports = vec![report("Lib", 0, 1), report("Bad", 0, 0), report("Mid", 0, 0), report("Main", 0, 2)];
    let mut diagnostics = Vec::new();
    collect_open_exercise_warnings(&closure, &reports, &mut diagnostics);
    assert_eq!(diagnostics.len(), 1);
    assert_eq!(diagnostics[0].code(), "import-has-open-exercises");
    assert_eq!(diagnostics[0].module, "Main");
    assert_eq!(diagnostics[0].message, "`Lib` 里还有未完成的练习（`sorry`）：它们对下游不可见");
    assert_eq!(diagnostics[0].span, Some(closure.modules[3].imports[0].1));
}

#[test]
fn a_failed_check_blocks_everything_downstream() {
    let closure = closure();
    let reports = vec![report("Lib", 0, 0), report("Bad", 2, 0), report("Mid", 0, 0), report("Main", 0, 0)];
    let mut diagnostics = Vec::new();
    let blocked = block_on_compile_failures(&closure, &reports, &mut diagnostics);
    assert_eq!(blocked, vec!["Mid".to_string(), "Main".to_string()]);
    let pairs: Vec<(&str, &str)> = diagnostics
        .iter()
        .map(|d| (d.module.as_str(), d.code()))
        .collect();
    assert_eq!(pairs, vec![("Mid", "import-dependency-failed"), ("Main", "import-dependency-failed")]);
    assert!(diagnostics[1].message.starts_with("`Mid` 没有编译成功"));
    // Errors in the entry's own report block nothing.
    let entry_only = vec![report("Lib", 0, 0), report("Bad", 0, 0), report("Mid", 0, 0), report("Main", 3, 0)];
    let mut none = Vec::new();
    assert!(block_on_compile_failures(&closure, &entry_only, &mut none).is_empty());
    assert!(none.is_empty());
}
