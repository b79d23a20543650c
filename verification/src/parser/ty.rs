//! The type parser and the effect parser.
use vstd::prelude::*;

use std::ops::Range;

use super::{item, parse_item, parse_type, tv, ty, type_result, Item, ItemNode, Kind};
use crate::ast::WithSpan;
use crate::lexer::Token;
use crate::syntax::{type_of, Effect, Type};

verus! {

/// The type at the start of `tokens`, and the number of tokens it takes;
/// none if no type starts there.
pub fn parser(tokens: &Vec<(Token, Range<usize>)>) -> (r: Option<(WithSpan<Type>, usize)>)
    ensures
        type_result(ty(tv(*tokens), 0), r, 0, tokens@.len() as int),
{
    parse_type(tokens, 0)
}

/// The effect at the start of `tokens`, a type, an effect arrow and a type,
/// and the number of tokens it takes; none if no effect starts there.
pub fn effect_parser(tokens: &Vec<(Token, Range<usize>)>) -> (r: Option<(Effect, usize)>)
    ensures
        match r {
            Some((e, q)) => item(tv(*tokens), 0, Kind::Effect) matches Some((Item::Effect(x), q2)) && x.value == (
                type_of(e.input),
                type_of(e.output),
            ) && q2 == q && 0 < q <= tokens@.len(),
            None => item(tv(*tokens), 0, Kind::Effect) is None,
        },
{
    match parse_item(tokens, 0, Kind::Effect) {
        Some((ItemNode::Effect(e), q)) => Some((e.value, q)),
        _ => None,
    }
}

} // verus!
