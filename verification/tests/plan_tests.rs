//! The plan of a project compilation and its closure digest.

use std::path::PathBuf;

use front::graph::{Closure, ClosureLoader};
use front::plan::{PreludeMode, ProjectPlan};
use front::report::ProjectErrorKind;
use front::resolve::Lookup;

fn closure_of(main: &str, bar: &str) -> Closure {
    let mut loader = ClosureLoader::start(
        "Main".to_string(),
        PathBuf::from("Main.sokonanoda"),
        Some(main.to_string()),
    );
    loader.supply_lookup(Lookup::Found(PathBuf::from("Bar.sokonanoda")));
    loader.supply_text(Ok(bar.to_string()));
    loader.finish()
}

fn plan_of(closure: Closure) -> ProjectPlan {
    ProjectPlan::new(
        PathBuf::from("Main.sokonanoda"),
        PathBuf::from("."),
        None,
        None,
        Vec::new(),
        closure,
    )
}

/// FNV-1a 64 computed here independently, over the documented bytes.
fn expected_digest(modules: &[(&str, &str, &[&str])], mode: u8) -> String {
    let mut bytes: Vec<u8> = b"soko.project-iface/1".to_vec();
    bytes.push(mode);
    for (name, src, imports) in modules {
        bytes.extend_from_slice(name.as_bytes());
        bytes.push(0);
        bytes.extend_from_slice(src.as_bytes());
        bytes.push(0);
        for dep in imports.iter() {
            bytes.extend_from_slice(dep.as_bytes());
            bytes.push(b',');
        }
        bytes.push(b'\n');
    }
    let mut hash: u64 = 0xcbf2_9ce4_8422_2325;
    for b in bytes {
        hash ^= u64::from(b);
        hash = hash.wrapping_mul(0x100_0000_01b3);
    }
    format!("closure-{hash:016x}")
}

const MAIN: &str = "import Bar\n\ndef two : Prop := bar\n";
const BAR: &str = "axiom bar : Prop\n";

#[test]
fn closure_digest_is_fnv_over_the_modules_in_order() {
    let plan = plan_of(closure_of(MAIN, BAR));
    assert_eq!(plan.entry(), "Main");
    let names: Vec<&str> = plan.modules().iter().map(|m| m.name.as_str()).collect();
    assert_eq!(names, vec!["Bar", "Main"]);
    let digest = plan.digest(PreludeMode::Full);
    assert_eq!(digest, expected_digest(&[("Bar", BAR, &[]), ("Main", MAIN, &["Bar"])], 1));
    assert_eq!(digest.len(), "closure-".len() + 16);
}

#[test]
fn closure_digest_is_stable_and_dependency_sensitive() {
    let first = plan_of(closure_of(MAIN, BAR)).digest(PreludeMode::Full);
    assert_eq!(first, plan_of(closure_of(MAIN, BAR)).digest(PreludeMode::Full));
    // A dependency's edit changes the key.
    assert_ne!(first, plan_of(closure_of(MAIN, "axiom bar : Prop\naxiom baz : Prop\n")).digest(PreludeMode::Full));
    // So does an entry edit and the prelude shape.
    assert_ne!(first, plan_of(closure_of("import Bar\n\ndef two : Prop := bar -> bar\n", BAR)).digest(PreludeMode::Full));
    assert_ne!(first, plan_of(closure_of(MAIN, BAR)).digest(PreludeMode::Bare));
    assert_eq!(
        plan_of(closure_of(MAIN, BAR)).digest(PreludeMode::Bare),
        expected_digest(&[("Bar", BAR, &[]), ("Main", MAIN, &["Bar"])], 2)
    );
}

#[test]
fn a_broken_manifest_has_its_own_code() {
    assert_eq!(ProjectErrorKind::ManifestInvalid.code(), "manifest-invalid");
}
