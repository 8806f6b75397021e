//! Cutting the input lines into entries.

use axe_cli::cli::EntriesOptions;
use axe_cli::entries::{split_by_size, split_input_lines_into_entries};

#[test]
fn should_parse_stdio_lines_as_input_entries_for_new_line_separator() {
    let stdin_lines = vec!["a b c".to_string(), "d e f".to_string()];
    let entries_options = EntriesOptions {
        single_entry: false,
        entries_separator: "\n".to_string(),
        entry_size: 0,
    };
    let expected = stdin_lines.clone();
    let actual = split_input_lines_into_entries(stdin_lines, &entries_options, " ");
    assert_eq!(expected, actual);
}

#[test]
fn should_parse_stdio_lines_as_input_entries_for_colon_separator() {
    let entries_options = EntriesOptions {
        single_entry: false,
        entries_separator: ";".to_string(),
        entry_size: 0,
    };
    let stdin_lines = vec!["a b c;d e f;".to_string(), "g h i;j k l".to_string()];
    let expected = vec![
        "a b c".to_string(),
        "d e f".to_string(),
        "g h i".to_string(),
        "j k l".to_string(),
    ];
    let actual = split_input_lines_into_entries(stdin_lines.clone(), &entries_options, " ");
    assert_eq!(expected, actual);
}

#[test]
fn should_parse_stdio_lines_as_single_entry() {
    let entries_options = EntriesOptions {
        single_entry: true,
        entries_separator: "\n".to_string(),
        entry_size: 0,
    };
    let stdin_lines = vec!["a,b,c".to_string(), "d,e,f".to_string()];
    let expected = vec!["a,b,c,d,e,f".to_string()];
    let actual = split_input_lines_into_entries(stdin_lines, &entries_options, ",");
    assert_eq!(expected, actual);
}

#[test]
fn split_by_size_regroups_across_lines() {
    let stdin_lines = vec!["a b".to_string(), "c d e".to_string()];
    assert_eq!(
        split_by_size(stdin_lines.clone(), 3, " "),
        vec!["a b c".to_string(), "d e".to_string()]
    );
    assert_eq!(
        split_by_size(stdin_lines, 1, " "),
        vec![
            "a".to_string(),
            "b".to_string(),
            "c".to_string(),
            "d".to_string(),
            "e".to_string(),
        ]
    );
}

#[test]
fn empty_input_joins_to_one_empty_entry() {
    let entries_options = EntriesOptions {
        single_entry: true,
        entries_separator: "\n".to_string(),
        entry_size: 0,
    };
    let actual = split_input_lines_into_entries(Vec::new(), &entries_options, " ");
    assert_eq!(actual, vec!["".to_string()]);
}

#[test]
fn multi_character_entries_separator_recuts_the_lines() {
    let entries_options = EntriesOptions {
        single_entry: false,
        entries_separator: "::".to_string(),
        entry_size: 0,
    };
    // The lines are first concatenated with no separator, then re-cut.
    let stdin_lines = vec!["a b::c ".to_string(), "d::e f".to_string()];
    let expected = vec!["a b".to_string(), "c d".to_string(), "e f".to_string()];
    let actual = split_input_lines_into_entries(stdin_lines, &entries_options, " ");
    assert_eq!(expected, actual);
}

#[test]
fn should_parse_stdio_lines_as_entries_with_size() {
    let entries_options = EntriesOptions {
        single_entry: false,
        entries_separator: "\n".to_string(),
        entry_size: 2,
    };
    let stdin_lines = vec!["a;b;c".to_string(), "d;e;f;g".to_string()];
    let expected = vec![
        "a;b".to_string(),
        "c;d".to_string(),
        "e;f".to_string(),
        "g".to_string(),
    ];
    let actual = split_input_lines_into_entries(stdin_lines, &entries_options, ";");
    assert_eq!(expected, actual);
}
