//! Parsing the interior of one placeholder span into a template part.
//!
//! The bracketed slice captured by the template lexer is re-tokenized into
//! the placeholder alphabet, eagerly; the resulting token list must then
//! match one of the six fixed shapes of the grammar, else the placeholder is
//! rejected as `InvalidDefinition`.

use vstd::prelude::*;

use crate::arg_parser::{PartView, ResolvedArgumentPart};
use crate::arg_resolver::tokens::{
    lemma_placeholder_step_bounds, placeholder_step, ArgPlaceholderToken, LexingError,
    LexingErrorView, PlaceholderLexer, PlaceholderTokenView,
};

verus! {

/// The placeholder tokens from position `pos` to the end of the span, or the
/// first lexing failure (an index whose digits overflow `usize`).
pub open spec fn lex_placeholder_from(s: Seq<char>, pos: int) -> Result<
    Seq<PlaceholderTokenView>,
    LexingErrorView,
>
    decreases s.len() - pos,
        when 0 <= pos <= s.len()
    via lex_placeholder_from_decreases
{
    if pos == s.len() {
        Ok(Seq::empty())
    } else {
        match placeholder_step(s, pos) {
            (Err(e), _) => Err(e),
            (Ok(tok), end) => match lex_placeholder_from(s, end) {
                Err(e) => Err(e),
                Ok(rest) => Ok(seq![tok] + rest),
            },
        }
    }
}

#[via_fn]
proof fn lex_placeholder_from_decreases(s: Seq<char>, pos: int) {
    if pos < s.len() {
        lemma_placeholder_step_bounds(s, pos);
    }
}

/// The six shapes of the placeholder grammar, matched exactly against the
/// eagerly collected token list; every other list is rejected.
pub open spec fn parse_tokens(toks: Seq<PlaceholderTokenView>) -> Result<
    PartView,
    LexingErrorView,
> {
    if toks.len() == 2 {
        match (toks[0], toks[1]) {
            (PlaceholderTokenView::BraceOpen, PlaceholderTokenView::BraceClose) => Ok(
                PartView::Empty,
            ),
            _ => Err(LexingErrorView::InvalidDefinition),
        }
    } else if toks.len() == 3 {
        match (toks[0], toks[1], toks[2]) {
            (
                PlaceholderTokenView::BraceOpen,
                PlaceholderTokenView::Index(i),
                PlaceholderTokenView::BraceClose,
            ) => Ok(PartView::Index(i)),
            (
                PlaceholderTokenView::BraceOpen,
                PlaceholderTokenView::Separator(sep),
                PlaceholderTokenView::BraceClose,
            ) => Ok(PartView::Split(sep)),
            _ => Err(LexingErrorView::InvalidDefinition),
        }
    } else if toks.len() == 4 {
        match (toks[0], toks[1], toks[2], toks[3]) {
            (
                PlaceholderTokenView::BraceOpen,
                PlaceholderTokenView::Index(i),
                PlaceholderTokenView::Separator(sep),
                PlaceholderTokenView::BraceClose,
            ) => Ok(PartView::IndexSplit(i, sep)),
            (
                PlaceholderTokenView::BraceOpen,
                PlaceholderTokenView::Separator(sep),
                PlaceholderTokenView::Index(j),
                PlaceholderTokenView::BraceClose,
            ) => Ok(PartView::SplitIndex(sep, j)),
            _ => Err(LexingErrorView::InvalidDefinition),
        }
    } else if toks.len() == 5 {
        match (toks[0], toks[1], toks[2], toks[3], toks[4]) {
            (
                PlaceholderTokenView::BraceOpen,
                PlaceholderTokenView::Index(i),
                PlaceholderTokenView::Separator(sep),
                PlaceholderTokenView::Index(j),
                PlaceholderTokenView::BraceClose,
            ) => Ok(PartView::IndexSplitIndex(i, sep, j)),
            _ => Err(LexingErrorView::InvalidDefinition),
        }
    } else {
        Err(LexingErrorView::InvalidDefinition)
    }
}

/// What one placeholder span means: its token list matched against the six
/// shapes, or the error that rejects it.
pub open spec fn parse_placeholder(s: Seq<char>) -> Result<PartView, LexingErrorView> {
    match lex_placeholder_from(s, 0) {
        Err(e) => Err(e),
        Ok(toks) => parse_tokens(toks),
    }
}

/// `acc` already lexed, followed by whatever `r` still yields.
spec fn lex_compose(
    acc: Seq<PlaceholderTokenView>,
    r: Result<Seq<PlaceholderTokenView>, LexingErrorView>,
) -> Result<Seq<PlaceholderTokenView>, LexingErrorView> {
    match r {
        Ok(rest) => Ok(acc + rest),
        Err(e) => Err(e),
    }
}

/// One [`TemplatePart`](ResolvedArgumentPart) from the full bracketed slice
/// of a placeholder span, braces included, or `InvalidDefinition` when the
/// interior matches none of the six shapes (`InvalidInteger` when an index
/// overflows `usize`).
pub fn resolve_arg_placeholder(placeholder: &str) -> (r: Result<ResolvedArgumentPart, LexingError>)
    ensures
        match r {
            Ok(p) => parse_placeholder(placeholder@) == Ok::<PartView, LexingErrorView>(p@),
            Err(e) => parse_placeholder(placeholder@) == Err::<PartView, LexingErrorView>(e@),
        },
{
    let ghost s = placeholder@;
    let mut lex: PlaceholderLexer = PlaceholderLexer::new(placeholder);
    let mut tokens: Vec<ArgPlaceholderToken> = Vec::new();
    loop
        invariant
            s == placeholder@,
            lex.wf(),
            lex.src@ == s,
            lex_placeholder_from(s, 0) == lex_compose(
                tokens.deep_view(),
                lex_placeholder_from(s, lex.pos as int),
            ),
        ensures
            lex_placeholder_from(s, 0) == Ok::<Seq<PlaceholderTokenView>, LexingErrorView>(
                tokens.deep_view(),
            ),
        decreases s.len() - lex.pos,
    {
        let ghost pos = lex.pos as int;
        match lex.next() {
            None => {
                proof {
                    assert(lex_placeholder_from(s, pos) == Ok::<
                        Seq<PlaceholderTokenView>,
                        LexingErrorView,
                    >(Seq::empty()));
                    assert(tokens.deep_view() + Seq::<PlaceholderTokenView>::empty()
                        =~= tokens.deep_view());
                }
                break ;
            },
            Some(Ok(tok)) => {
                proof {
                    lemma_placeholder_step_bounds(s, pos);
                    let end = placeholder_step(s, pos).1;
                    assert(lex_placeholder_from(s, pos) == match lex_placeholder_from(s, end) {
                        Err(e) => Err(e),
                        Ok(rest) => Ok(seq![tok@] + rest),
                    });
                }
                let ghost prev = tokens.deep_view();
                tokens.push(tok);
                proof {
                    assert(tokens.deep_view() =~= prev.push(tok@));
                    let end = placeholder_step(s, pos).1;
                    match lex_placeholder_from(s, end) {
                        Err(e) => {},
                        Ok(rest) => {
                            assert(prev + (seq![tok@] + rest) =~= prev.push(tok@) + rest);
                        },
                    }
                }
            },
            Some(Err(e)) => {
                proof {
                    assert(lex_placeholder_from(s, pos) == Err::<
                        Seq<PlaceholderTokenView>,
                        LexingErrorView,
                    >(e@));
                    assert(lex_placeholder_from(s, 0) == Err::<
                        Seq<PlaceholderTokenView>,
                        LexingErrorView,
                    >(e@));
                    assert(parse_placeholder(placeholder@) == Err::<PartView, LexingErrorView>(
                        e@,
                    ));
                }
                return Err(e);
            },
        }
    }
    // The token list is complete; match it against the six shapes.
    if tokens.len() == 2 {
        match (&tokens[0], &tokens[1]) {
            (ArgPlaceholderToken::BraceOpen, ArgPlaceholderToken::BraceClose) => Ok(
                ResolvedArgumentPart::Empty,
            ),
            _ => Err(LexingError::InvalidDefinition),
        }
    } else if tokens.len() == 3 {
        match (&tokens[0], &tokens[1], &tokens[2]) {
            (
                ArgPlaceholderToken::BraceOpen,
                ArgPlaceholderToken::Index(i),
                ArgPlaceholderToken::BraceClose,
            ) => Ok(ResolvedArgumentPart::Index(*i)),
            (
                ArgPlaceholderToken::BraceOpen,
                ArgPlaceholderToken::Separator(sep),
                ArgPlaceholderToken::BraceClose,
            ) => Ok(ResolvedArgumentPart::Split(sep.clone())),
            _ => Err(LexingError::InvalidDefinition),
        }
    } else if tokens.len() == 4 {
        match (&tokens[0], &tokens[1], &tokens[2], &tokens[3]) {
            (
                ArgPlaceholderToken::BraceOpen,
                ArgPlaceholderToken::Index(i),
                ArgPlaceholderToken::Separator(sep),
                ArgPlaceholderToken::BraceClose,
            ) => Ok(ResolvedArgumentPart::IndexSplit(*i, sep.clone())),
            (
                ArgPlaceholderToken::BraceOpen,
                ArgPlaceholderToken::Separator(sep),
                ArgPlaceholderToken::Index(j),
                ArgPlaceholderToken::BraceClose,
            ) => Ok(ResolvedArgumentPart::SplitIndex(sep.clone(), *j)),
            _ => Err(LexingError::InvalidDefinition),
        }
    } else if tokens.len() == 5 {
        match (&tokens[0], &tokens[1], &tokens[2], &tokens[3], &tokens[4]) {
            (
                ArgPlaceholderToken::BraceOpen,
                ArgPlaceholderToken::Index(i),
                ArgPlaceholderToken::Separator(sep),
                ArgPlaceholderToken::Index(j),
                ArgPlaceholderToken::BraceClose,
            ) => Ok(ResolvedArgumentPart::IndexSplitIndex(*i, sep.clone(), *j)),
            _ => Err(LexingError::InvalidDefinition),
        }
    } else {
        Err(LexingError::InvalidDefinition)
    }
}

} // verus!
