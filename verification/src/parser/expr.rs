//! The expression parser.
use vstd::prelude::*;

use std::ops::Range;

use super::{expr, expr_result, parse_expr, tv};
use crate::ast::WithSpan;
use crate::lexer::Token;
use crate::syntax::Expr;

verus! {

/// The expression at the start of `tokens`, and the number of tokens it
/// takes; none if no expression starts there.
pub fn parser(tokens: &Vec<(Token, Range<usize>)>) -> (r: Option<(WithSpan<Expr>, usize)>)
    ensures
        expr_result(expr(tv(*tokens), 0), r, 0, tokens@.len() as int),
{
    parse_expr(tokens, 0)
}

} // verus!
