use std::path::PathBuf;

use front::module_name::{ModuleName, ModuleNameError};

#[test]
fn parses_and_round_trips_a_dotted_name() {
    let name = ModuleName::parse("Lesson.Logic").expect("valid");
    assert_eq!(name.as_str(), "Lesson.Logic");
    assert_eq!(name.components(), ["Lesson", "Logic"]);
    assert_eq!(
        PathBuf::from(name.relative_path()),
        PathBuf::from("Lesson/Logic.sokonanoda")
    );
    assert_eq!(name.last_component(), "Logic");
}

#[test]
fn single_component_maps_to_a_sibling_file() {
    let name = ModuleName::parse("Bar").expect("valid");
    assert_eq!(PathBuf::from(name.relative_path()), PathBuf::from("Bar.sokonanoda"));
}

#[test]
fn rejects_empty_names_and_empty_components() {
    assert_eq!(ModuleName::parse(""), Err(ModuleNameError::Empty));
    assert_eq!(
        ModuleName::parse("Foo."),
        Err(ModuleNameError::EmptyComponent)
    );
    assert_eq!(
        ModuleName::parse("Foo..Bar"),
        Err(ModuleNameError::EmptyComponent)
    );
    assert_eq!(
        ModuleName::parse(".Foo"),
        Err(ModuleNameError::EmptyComponent)
    );
}

#[test]
fn rejects_digits_at_the_start_of_a_component() {
    assert_eq!(
        ModuleName::parse("Unit1.Proofs").map(|name| name.components().to_vec()),
        Ok(vec!["Unit1".to_string(), "Proofs".to_string()]),
        "digits are fine after the first character"
    );
    assert_eq!(
        ModuleName::parse("1Foo"),
        Err(ModuleNameError::BadStart {
            component: "1Foo".into(),
            ch: '1'
        })
    );
}

#[test]
fn rejects_dash_with_a_teaching_hint() {
    let err = ModuleName::parse("unit1-propositions").expect_err("dash is not a module char");
    assert_eq!(
        err,
        ModuleNameError::BadChar {
            component: "unit1-propositions".into(),
            ch: '-'
        }
    );
    assert!(
        err.hint().contains("`-` 不是模块名字符"),
        "the dash case gets its own hint: {}",
        err.hint()
    );
}

#[test]
fn accepts_the_same_identifier_charset_as_the_lexer() {
    // 词法层允许 `'!?` 续接；模块名沿用同一集合（但 `.` 是分隔符）。
    for raw in [
        "Foo'",
        "Foo!",
        "Foo?",
        "Foo_bar",
        "Foo2",
        "_Foo",
        "逻辑.基础",
    ] {
        assert!(
            ModuleName::parse(raw).is_ok(),
            "{raw} should be a legal module name"
        );
    }
}

#[test]
fn portability_note_flags_reserved_and_forbidden_names() {
    assert!(ModuleName::parse("Logic")
        .expect("valid")
        .portability_note()
        .is_none());
    assert!(ModuleName::parse("Con")
        .expect("valid")
        .portability_note()
        .is_some_and(|note| note.contains("保留设备名")));
    assert!(ModuleName::parse("Com1")
        .expect("valid")
        .portability_note()
        .is_some_and(|note| note.contains("保留设备名")));
    assert!(ModuleName::parse("Foo!")
        .expect("valid")
        .portability_note()
        .is_some_and(|note| note.contains("`!`")));
}
