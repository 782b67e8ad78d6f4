use front::ast::Command;
use front::parser::parse;
use front::resolve::{entry_matches, entry_matches_ignoring_case, equal_ignoring_case, is_dash_candidate};
use front::session::{char_position, containing_command, first_diff, remap_span, DeclKey};
use front::span::{Pos, Span};

fn key(text: &str) -> DeclKey {
    DeclKey { text: text.to_string(), start: 0 }
}

#[test]
fn first_diff_stops_at_the_first_changed_declaration() {
    let old = vec![key("def a"), key("def b"), key("def c")];
    let new = vec![key("def a"), key("def B"), key("def c")];
    assert_eq!(first_diff(&new, &old), 1);
    assert_eq!(first_diff(&old, &old), 3);
    assert_eq!(first_diff(&new[..1], &old), 1);
}

#[test]
fn char_position_counts_lines_and_characters() {
    assert_eq!(char_position("ab\ncd", 0), (1, 1));
    assert_eq!(char_position("ab\ncd", 4), (2, 2));
    assert_eq!(char_position("∀x", 3), (1, 2));
}

fn pos(offset: usize) -> Pos {
    Pos { offset, line: 1, column: offset + 1 }
}

#[test]
fn remapped_span_keeps_its_distance_from_the_command() {
    let old_cmd = Span::new(pos(10), pos(20));
    let new_cmd = Span::new(pos(0), pos(10));
    let moved = remap_span(Span::new(pos(12), pos(15)), old_cmd, new_cmd, "0123456789\nabc");
    assert_eq!(moved.start.offset, 2);
    assert_eq!(moved.end.offset, 5);
    assert_eq!((moved.start.line, moved.start.column), (1, 3));
}

#[test]
fn containing_command_finds_the_command_at_an_offset() {
    let file = parse("def a : Prop := Prop\ndef b : Prop := Prop\n").expect("parses");
    let commands: Vec<Command> = file.commands;
    assert_eq!(containing_command(&commands, 3), Some(0));
    assert_eq!(containing_command(&commands, 25), Some(1));
    assert_eq!(containing_command(&commands, 1000), None);
}

#[test]
fn directory_entries_match_module_components() {
    assert!(entry_matches("Logic.sokonanoda", "Logic", true));
    assert!(!entry_matches("Logic", "Logic", true));
    assert!(entry_matches("Lesson", "Lesson", false));
    assert!(entry_matches_ignoring_case("logic.sokonanoda", "Logic", true));
    assert!(!entry_matches_ignoring_case("logic.txt", "Logic", true));
    assert!(equal_ignoring_case("LeSSon", "lesson"));
    assert!(is_dash_candidate("Logic-2.sokonanoda", "Logic"));
    assert!(!is_dash_candidate("Logic2.sokonanoda", "Logic"));
    assert!(!is_dash_candidate("Logic-2.txt", "Logic"));
}
