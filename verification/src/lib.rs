//! Template-driven argument expansion.
//!
//! A template string such as `abc{0}def{.}{2.1}` mixes literal text with
//! placeholders that select, split and recombine the fields of one input
//! entry. Templates are compiled once into sequences of parts and then
//! resolved against each entry's fields, combining multi-valued parts by an
//! ordered cartesian product.

use vstd::prelude::*;

pub mod arg_parser;
pub mod cli;
pub mod entries;
pub mod arg_resolver;
pub mod text;

verus! {

/// Characters that delimit placeholder spans inside a template.
pub open spec fn is_brace(c: char) -> bool {
    c == '{' || c == '}'
}

} // verus!
