//! Matching placeholder spans against the six shapes of the grammar.

use axe_cli::arg_parser::placeholder_resolver::resolve_arg_placeholder;
use axe_cli::arg_parser::{LexingError, ResolvedArgumentPart};

#[test]
fn placeholder_resolver_should_parse_arg_placeholders() {
    assert_eq!(
        ResolvedArgumentPart::Index(0),
        resolve_arg_placeholder("{0}").unwrap()
    );
    assert_eq!(
        ResolvedArgumentPart::IndexSplit(0, ".".to_string()),
        resolve_arg_placeholder("{0.}").unwrap()
    );
    assert_eq!(
        ResolvedArgumentPart::IndexSplitIndex(0, ".".to_string(), 1),
        resolve_arg_placeholder("{0.1}").unwrap()
    );
    assert_eq!(
        ResolvedArgumentPart::SplitIndex(".".to_string(), 0),
        resolve_arg_placeholder("{.0}").unwrap()
    );
    assert_eq!(
        ResolvedArgumentPart::Split(".".to_string()),
        resolve_arg_placeholder("{.}").unwrap()
    );
    assert_eq!(
        ResolvedArgumentPart::Empty,
        resolve_arg_placeholder("{}").unwrap()
    );
}

#[test]
fn placeholder_resolver_should_fail_to_parse_arg_placeholders() {
    assert_eq!(
        LexingError::InvalidDefinition,
        resolve_arg_placeholder("{").unwrap_err()
    );
    assert_eq!(
        LexingError::InvalidDefinition,
        resolve_arg_placeholder("}").unwrap_err()
    );
    assert_eq!(
        LexingError::InvalidDefinition,
        resolve_arg_placeholder("{0").unwrap_err()
    );
    assert_eq!(
        LexingError::InvalidDefinition,
        resolve_arg_placeholder("{0.").unwrap_err()
    );
    assert_eq!(
        LexingError::InvalidDefinition,
        resolve_arg_placeholder("{0.1").unwrap_err()
    );
    assert_eq!(
        LexingError::InvalidDefinition,
        resolve_arg_placeholder("xxx").unwrap_err()
    );
    assert_eq!(
        LexingError::InvalidDefinition,
        resolve_arg_placeholder("0.0").unwrap_err()
    );
    assert_eq!(
        LexingError::InvalidDefinition,
        resolve_arg_placeholder("{0}x").unwrap_err()
    );
    assert_eq!(
        LexingError::InvalidDefinition,
        resolve_arg_placeholder("0{0}").unwrap_err()
    );
    assert_eq!(
        LexingError::InvalidDefinition,
        resolve_arg_placeholder("{{0}}").unwrap_err()
    );
}

#[test]
fn templates_resolver_should_parse_arg_placeholders() {
    assert_eq!(
        ResolvedArgumentPart::Index(0),
        resolve_arg_placeholder("{0}").unwrap()
    );
    assert_eq!(
        ResolvedArgumentPart::IndexSplit(0, ".".to_string()),
        resolve_arg_placeholder("{0.}").unwrap()
    );
    assert_eq!(
        ResolvedArgumentPart::IndexSplitIndex(0, ".".to_string(), 1),
        resolve_arg_placeholder("{0.1}").unwrap()
    );
    assert_eq!(
        ResolvedArgumentPart::SplitIndex(".".to_string(), 0),
        resolve_arg_placeholder("{.0}").unwrap()
    );
    assert_eq!(
        ResolvedArgumentPart::Split(".".to_string()),
        resolve_arg_placeholder("{.}").unwrap()
    );
    assert_eq!(
        ResolvedArgumentPart::Empty,
        resolve_arg_placeholder("{}").unwrap()
    );
}

#[test]
fn templates_resolver_should_fail_to_parse_arg_placeholders() {
    assert_eq!(
        LexingError::InvalidDefinition,
        resolve_arg_placeholder("{").unwrap_err()
    );
    assert_eq!(
        LexingError::InvalidDefinition,
        resolve_arg_placeholder("}").unwrap_err()
    );
    assert_eq!(
        LexingError::InvalidDefinition,
        resolve_arg_placeholder("{0").unwrap_err()
    );
    assert_eq!(
        LexingError::InvalidDefinition,
        resolve_arg_placeholder("{0.").unwrap_err()
    );
    assert_eq!(
        LexingError::InvalidDefinition,
        resolve_arg_placeholder("{0.1").unwrap_err()
    );
    assert_eq!(
        LexingError::InvalidDefinition,
        resolve_arg_placeholder("xxx").unwrap_err()
    );
    assert_eq!(
        LexingError::InvalidDefinition,
        resolve_arg_placeholder("0.0").unwrap_err()
    );
    assert_eq!(
        LexingError::InvalidDefinition,
        resolve_arg_placeholder("{0}x").unwrap_err()
    );
    assert_eq!(
        LexingError::InvalidDefinition,
        resolve_arg_placeholder("0{0}").unwrap_err()
    );
    assert_eq!(
        LexingError::InvalidDefinition,
        resolve_arg_placeholder("{{0}}").unwrap_err()
    );
}
