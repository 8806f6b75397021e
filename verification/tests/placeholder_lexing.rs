//! Placeholder-level lexing: braces, index numbers and separator runs.

use axe_cli::arg_resolver::tokens::{ArgPlaceholderToken, PlaceholderLexer};

#[test]
fn placeholder_resolver_lexer_should_parse_arg_placeholder_with_index_only() {
    let mut lex = PlaceholderLexer::new("{0}");
    assert_eq!(lex.next(), Some(Ok(ArgPlaceholderToken::BraceOpen)));
    assert_eq!(lex.next(), Some(Ok(ArgPlaceholderToken::Index(0))));
    assert_eq!(lex.next(), Some(Ok(ArgPlaceholderToken::BraceClose)));
    assert_eq!(lex.next(), None);
}

#[test]
fn placeholder_resolver_lexer_should_parse_arg_placeholder_with_index_and_separator() {
    let mut lex = PlaceholderLexer::new("{0.}");
    assert_eq!(lex.next(), Some(Ok(ArgPlaceholderToken::BraceOpen)));
    assert_eq!(lex.next(), Some(Ok(ArgPlaceholderToken::Index(0))));
    assert_eq!(
        lex.next(),
        Some(Ok(ArgPlaceholderToken::Separator(".".to_string())))
    );
    assert_eq!(lex.next(), Some(Ok(ArgPlaceholderToken::BraceClose)));
    assert_eq!(lex.next(), None);
}

#[test]
fn placeholder_resolver_lexer_should_parse_arg_placeholder_with_index_separator_and_index() {
    let mut lex = PlaceholderLexer::new("{0.1}");
    assert_eq!(lex.next(), Some(Ok(ArgPlaceholderToken::BraceOpen)));
    assert_eq!(lex.next(), Some(Ok(ArgPlaceholderToken::Index(0))));
    assert_eq!(
        lex.next(),
        Some(Ok(ArgPlaceholderToken::Separator(".".to_string())))
    );
    assert_eq!(lex.next(), Some(Ok(ArgPlaceholderToken::Index(1))));
    assert_eq!(lex.next(), Some(Ok(ArgPlaceholderToken::BraceClose)));
    assert_eq!(lex.next(), None);
}

#[test]
fn placeholder_resolver_lexer_should_parse_empty_arg_placeholder() {
    let mut lex = PlaceholderLexer::new("{}");
    assert_eq!(lex.next(), Some(Ok(ArgPlaceholderToken::BraceOpen)));
    assert_eq!(lex.next(), Some(Ok(ArgPlaceholderToken::BraceClose)));
    assert_eq!(lex.next(), None);
}

#[test]
fn placeholder_resolver_lexer_should_parse_empty_arg_placeholder_with_separator() {
    let mut lex = PlaceholderLexer::new("{.}");
    assert_eq!(lex.next(), Some(Ok(ArgPlaceholderToken::BraceOpen)));
    assert_eq!(
        lex.next(),
        Some(Ok(ArgPlaceholderToken::Separator(".".to_string())))
    );
    assert_eq!(lex.next(), Some(Ok(ArgPlaceholderToken::BraceClose)));
    assert_eq!(lex.next(), None);
}

#[test]
fn placeholder_resolver_lexer_should_parse_arg_placeholder_with_separator_and_index() {
    let mut lex = PlaceholderLexer::new("{.0}");
    assert_eq!(lex.next(), Some(Ok(ArgPlaceholderToken::BraceOpen)));
    assert_eq!(
        lex.next(),
        Some(Ok(ArgPlaceholderToken::Separator(".".to_string())))
    );
    assert_eq!(lex.next(), Some(Ok(ArgPlaceholderToken::Index(0))));
    assert_eq!(lex.next(), Some(Ok(ArgPlaceholderToken::BraceClose)));
    assert_eq!(lex.next(), None);
}

#[test]
fn tokens_lexer_should_parse_arg_placeholder_with_index_only() {
    let mut lex = PlaceholderLexer::new("{0}");
    assert_eq!(lex.next(), Some(Ok(ArgPlaceholderToken::BraceOpen)));
    assert_eq!(lex.next(), Some(Ok(ArgPlaceholderToken::Index(0))));
    assert_eq!(lex.next(), Some(Ok(ArgPlaceholderToken::BraceClose)));
    assert_eq!(lex.next(), None);
}

#[test]
fn tokens_lexer_should_parse_arg_placeholder_with_index_and_separator() {
    let mut lex = PlaceholderLexer::new("{0.}");
    assert_eq!(lex.next(), Some(Ok(ArgPlaceholderToken::BraceOpen)));
    assert_eq!(lex.next(), Some(Ok(ArgPlaceholderToken::Index(0))));
    assert_eq!(
        lex.next(),
        Some(Ok(ArgPlaceholderToken::Separator(".".to_string())))
    );
    assert_eq!(lex.next(), Some(Ok(ArgPlaceholderToken::BraceClose)));
    assert_eq!(lex.next(), None);
}

#[test]
fn tokens_lexer_should_parse_arg_placeholder_with_index_separator_and_index() {
    let mut lex = PlaceholderLexer::new("{0.1}");
    assert_eq!(lex.next(), Some(Ok(ArgPlaceholderToken::BraceOpen)));
    assert_eq!(lex.next(), Some(Ok(ArgPlaceholderToken::Index(0))));
    assert_eq!(
        lex.next(),
        Some(Ok(ArgPlaceholderToken::Separator(".".to_string())))
    );
    assert_eq!(lex.next(), Some(Ok(ArgPlaceholderToken::Index(1))));
    assert_eq!(lex.next(), Some(Ok(ArgPlaceholderToken::BraceClose)));
    assert_eq!(lex.next(), None);
}

#[test]
fn tokens_lexer_should_parse_empty_arg_placeholder() {
    let mut lex = PlaceholderLexer::new("{}");
    assert_eq!(lex.next(), Some(Ok(ArgPlaceholderToken::BraceOpen)));
    assert_eq!(lex.next(), Some(Ok(ArgPlaceholderToken::BraceClose)));
    assert_eq!(lex.next(), None);
}

#[test]
fn tokens_lexer_should_parse_empty_arg_placeholder_with_separator() {
    let mut lex = PlaceholderLexer::new("{.}");
    assert_eq!(lex.next(), Some(Ok(ArgPlaceholderToken::BraceOpen)));
    assert_eq!(
        lex.next(),
        Some(Ok(ArgPlaceholderToken::Separator(".".to_string())))
    );
    assert_eq!(lex.next(), Some(Ok(ArgPlaceholderToken::BraceClose)));
    assert_eq!(lex.next(), None);
}

#[test]
fn tokens_lexer_should_parse_arg_placeholder_with_separator_and_index() {
    let mut lex = PlaceholderLexer::new("{.0}");
    assert_eq!(lex.next(), Some(Ok(ArgPlaceholderToken::BraceOpen)));
    assert_eq!(
        lex.next(),
        Some(Ok(ArgPlaceholderToken::Separator(".".to_string())))
    );
    assert_eq!(lex.next(), Some(Ok(ArgPlaceholderToken::Index(0))));
    assert_eq!(lex.next(), Some(Ok(ArgPlaceholderToken::BraceClose)));
    assert_eq!(lex.next(), None);
}
