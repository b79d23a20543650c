//! The parser: tokens to the syntax tree of an expression or of a type.
//!
//! Each form begins with a token of its own, so the first token chooses the
//! form; only an integer (alone or as the numerator of a rational) and an
//! identifier (a bounded variable or a variable) look further. Lists are
//! separated by commas; those that need at least one item may end with a
//! dot. A comment before a form, or right after it, is kept on it. `in` may
//! follow a definition or a head and is then skipped.
use vstd::prelude::*;

use std::ops::Range;

pub mod expr;
pub mod ty;

use crate::amir::LinkName;
use crate::ast::{Span, WithSpan};
use crate::lexer::{SpecToken, Token};
use crate::syntax::{
    CommentPosition, Effect, EffectExpr, Expr, Handler, Literal, MatchCase, SEffectExpr, SExpr, SLiteral, SType,
    Spanned, Type,
};

verus! {

/// What a list holds: the kind of its items.
#[derive(Clone, Copy)]
pub enum Kind {
    Expr,
    Type,
    Ident,
    Handler,
    Case,
    Effect,
    EffectExpr,
}

/// An item of a list, by its model.
pub enum Item {
    Expr(Spanned<SExpr>),
    Type(Spanned<SType>),
    Ident(Seq<char>),
    Handler((Spanned<SType>, Spanned<SType>, Spanned<SExpr>)),
    Case((Spanned<SType>, Spanned<SExpr>)),
    Effect(Spanned<(Spanned<SType>, Spanned<SType>)>),
    EffectExpr(Spanned<SEffectExpr>),
}

/// Tokens, each with the span it was read from.
pub type Tokens = Seq<(SpecToken, int, int)>;

/// The token at `p` is `t`.
pub open spec fn is_tok(ts: Tokens, p: int, t: SpecToken) -> bool {
    0 <= p < ts.len() && ts[p].0 == t
}

/// The span of the tokens from `p` up to `q`.
pub open spec fn span_of(ts: Tokens, p: int, q: int) -> Span {
    Span { start: ts[p].1 as usize, end: ts[q - 1].2 as usize }
}

/// Reading went on from `p` to `q`, within the tokens.
pub open spec fn progress(ts: Tokens, p: int, q: int) -> bool {
    p < q <= ts.len()
}

/// The place after an `in` at `q`, if one is there.
pub open spec fn skip_in(ts: Tokens, q: int) -> int {
    if is_tok(ts, q, SpecToken::In) {
        q + 1
    } else {
        q
    }
}

/// The place after a dot at `q`, if one is there.
pub open spec fn skip_dot(ts: Tokens, q: int) -> int {
    if is_tok(ts, q, SpecToken::Dot) {
        q + 1
    } else {
        q
    }
}

pub open spec fn node<T>(ts: Tokens, p: int, q: int, value: T) -> Option<(Spanned<T>, int)> {
    Some((Spanned { span: span_of(ts, p, q), value }, q))
}

/// The expression at `p`, with a comment right after it kept on it.
pub open spec fn expr(ts: Tokens, p: int) -> Option<(Spanned<SExpr>, int)>
    decreases ts.len() - p, 1int,
{
    match core_expr(ts, p) {
        Some((x, q)) => if 0 <= q < ts.len() && ts[q].0 is Comment {
            node(
                ts,
                p,
                q + 1,
                SExpr::Comment { position: CommentPosition::Suffix, text: ts[q].0->Comment_0, item: Box::new(x) },
            )
        } else {
            Some((x, q))
        },
        None => None,
    }
}

/// The type at `p`, with a comment right after it kept on it.
pub open spec fn ty(ts: Tokens, p: int) -> Option<(Spanned<SType>, int)>
    decreases ts.len() - p, 1int,
{
    match core_type(ts, p) {
        Some((x, q)) => if 0 <= q < ts.len() && ts[q].0 is Comment {
            node(
                ts,
                p,
                q + 1,
                SType::Comment { position: CommentPosition::Suffix, text: ts[q].0->Comment_0, item: Box::new(x) },
            )
        } else {
            Some((x, q))
        },
        None => None,
    }
}

/// The item of kind `k` at `p`.
pub open spec fn item(ts: Tokens, p: int, k: Kind) -> Option<(Item, int)>
    decreases ts.len() - p, 2int,
{
    match k {
        Kind::Expr => match expr(ts, p) {
            Some((x, q)) => Some((Item::Expr(x), q)),
            None => None,
        },
        Kind::Type => match ty(ts, p) {
            Some((x, q)) => Some((Item::Type(x), q)),
            None => None,
        },
        Kind::Ident => if 0 <= p < ts.len() && ts[p].0 is Ident {
            Some((Item::Ident(ts[p].0->Ident_0), p + 1))
        } else {
            None
        },
        Kind::Handler => match ty(ts, p) {
            Some((a, q)) => if is_tok(ts, q, SpecToken::EArrow) && progress(ts, p, q) {
                match ty(ts, q + 1) {
                    Some((b, r)) => {
                        let r2 = if is_tok(ts, r, SpecToken::Arrow) { r + 1 } else { r };
                        if progress(ts, q, r) {
                            match expr(ts, r2) {
                                Some((c, e)) => Some((Item::Handler((a, b, c)), e)),
                                None => None,
                            }
                        } else {
                            None
                        }
                    },
                    None => None,
                }
            } else {
                None
            },
            None => None,
        },
        Kind::Case => match ty(ts, p) {
            Some((a, q)) => if is_tok(ts, q, SpecToken::Arrow) && progress(ts, p, q) {
                match expr(ts, q + 1) {
                    Some((b, r)) => Some((Item::Case((a, b)), r)),
                    None => None,
                }
            } else {
                None
            },
            None => None,
        },
        Kind::Effect => match ty(ts, p) {
            Some((a, q)) => if is_tok(ts, q, SpecToken::EArrow) && progress(ts, p, q) {
                match ty(ts, q + 1) {
                    Some((b, r)) => Some((Item::Effect(Spanned { span: span_of(ts, p, r), value: (a, b) }), r)),
                    None => None,
                }
            } else {
                None
            },
            None => None,
        },
        Kind::EffectExpr => match effect_expr(ts, p) {
            Some((x, q)) => Some((Item::EffectExpr(x), q)),
            None => None,
        },
    }
}

/// The items of kind `k` from `p` on, separated by commas, and the place
/// after the last one; none if no item is at `p`.
pub open spec fn items(ts: Tokens, p: int, k: Kind) -> (Seq<Item>, int)
    decreases ts.len() - p, 3int,
{
    match item(ts, p, k) {
        Some((x, q)) => if progress(ts, p, q) {
            let (rest, r) = more_items(ts, q, k);
            (seq![x] + rest, r)
        } else {
            (seq![], p)
        },
        None => (seq![], p),
    }
}

/// After an item that ends at `q`: the further items, each after a comma.
pub open spec fn more_items(ts: Tokens, q: int, k: Kind) -> (Seq<Item>, int)
    decreases ts.len() - q, 4int,
{
    if is_tok(ts, q, SpecToken::Comma) {
        match item(ts, q + 1, k) {
            Some((x, r)) => if progress(ts, q, r) {
                let (rest, e) = more_items(ts, r, k);
                (seq![x] + rest, e)
            } else {
                (seq![], q)
            },
            None => (seq![], q),
        }
    } else {
        (seq![], q)
    }
}

/// At least one item, separated by commas, then a dot if one is there.
pub open spec fn items_at_least_one(ts: Tokens, p: int, k: Kind) -> Option<(Seq<Item>, int)>
    decreases ts.len() - p, 4int,
{
    let (xs, q) = items(ts, p, k);
    if xs.len() > 0 {
        Some((xs, skip_dot(ts, q)))
    } else {
        None
    }
}

/// Items separated by commas, then a dot if one is there; or none.
pub open spec fn items_or_none(ts: Tokens, p: int, k: Kind) -> (Seq<Item>, int)
    decreases ts.len() - p, 5int,
{
    match items_at_least_one(ts, p, k) {
        Some(r) => r,
        None => (seq![], p),
    }
}

pub open spec fn as_exprs(xs: Seq<Item>) -> Seq<Spanned<SExpr>> {
    Seq::new(xs.len(), |i: int| xs[i]->Expr_0)
}

pub open spec fn as_types(xs: Seq<Item>) -> Seq<Spanned<SType>> {
    Seq::new(xs.len(), |i: int| xs[i]->Type_0)
}

pub open spec fn as_idents(xs: Seq<Item>) -> Seq<Seq<char>> {
    Seq::new(xs.len(), |i: int| xs[i]->Ident_0)
}

pub open spec fn as_handlers(xs: Seq<Item>) -> Seq<(Spanned<SType>, Spanned<SType>, Spanned<SExpr>)> {
    Seq::new(xs.len(), |i: int| xs[i]->Handler_0)
}

pub open spec fn as_cases(xs: Seq<Item>) -> Seq<(Spanned<SType>, Spanned<SExpr>)> {
    Seq::new(xs.len(), |i: int| xs[i]->Case_0)
}

pub open spec fn as_effects(xs: Seq<Item>) -> Seq<Spanned<(Spanned<SType>, Spanned<SType>)>> {
    Seq::new(xs.len(), |i: int| xs[i]->Effect_0)
}

pub open spec fn as_effect_exprs(xs: Seq<Item>) -> Seq<Spanned<SEffectExpr>> {
    Seq::new(xs.len(), |i: int| xs[i]->EffectExpr_0)
}

/// The link name at `q`: a card and its identifier, or none.
pub open spec fn link_name_at(ts: Tokens, q: int) -> (LinkName, int) {
    if is_tok(ts, q, SpecToken::Card) && 0 <= q + 1 < ts.len() && ts[q + 1].0 is Uuid {
        (LinkName::Card(ts[q + 1].0->Uuid_0), q + 2)
    } else {
        (LinkName::Unnamed, q)
    }
}

/// The type given after a colon at `q`, and the place after it; a type
/// to infer, spanning nothing, if none is given there.
pub open spec fn annotation(ts: Tokens, q: int) -> (Spanned<SType>, int)
    decreases ts.len() - q, 0int,
{
    match (if is_tok(ts, q, SpecToken::TypeAnnotation) {
        ty(ts, q + 1)
    } else {
        None
    }) {
        Some((t, r)) => (t, r),
        None => (Spanned { span: Span { start: 0, end: 0 }, value: SType::Infer }, q),
    }
}

/// The expression at `p`, chosen by its first token.
pub open spec fn core_expr(ts: Tokens, p: int) -> Option<(Spanned<SExpr>, int)>
    decreases ts.len() - p, 0int,
{
    if 0 <= p < ts.len() {
        match ts[p].0 {
            SpecToken::Hole => node(ts, p, p + 1, SExpr::Hole),
            SpecToken::Comment(text) => match expr(ts, p + 1) {
                Some((x, q)) => node(
                    ts,
                    p,
                    q,
                    SExpr::Comment { position: CommentPosition::Prefix, text, item: Box::new(x) },
                ),
                None => None,
            },
            SpecToken::Int(a) => if is_tok(ts, p + 1, SpecToken::Divide) && 0 <= p + 2 < ts.len()
                && ts[p + 2].0 is Int {
                node(ts, p, p + 3, SExpr::Literal(SLiteral::Rational(a as i64, ts[p + 2].0->Int_0 as i64)))
            } else {
                node(ts, p, p + 1, SExpr::Literal(SLiteral::Integer(a as i64)))
            },
            SpecToken::Str(s) => node(ts, p, p + 1, SExpr::Literal(SLiteral::String(s))),
            SpecToken::Let => match expr(ts, p + 1) {
                Some((d, q)) => if progress(ts, p, q) {
                    let (t, r) = annotation(ts, q);
                    if progress(ts, p, r) {
                        match expr(ts, skip_in(ts, r)) {
                            Some((b, e)) => node(ts, p, e, SExpr::Let { ty: t, definition: Box::new(d), body: Box::new(b) }),
                            None => None,
                        }
                    } else {
                        None
                    }
                } else {
                    None
                },
                None => None,
            },
            SpecToken::Perform => match expr(ts, p + 1) {
                Some((a, q)) => if is_tok(ts, q, SpecToken::EArrow) && progress(ts, p, q) {
                    match ty(ts, q + 1) {
                        Some((t, r)) => node(ts, p, r, SExpr::Perform { input: Box::new(a), output: t }),
                        None => None,
                    }
                } else {
                    None
                },
                None => None,
            },
            SpecToken::Continue => match expr(ts, p + 1) {
                Some((a, q)) => match (if is_tok(ts, q, SpecToken::EArrow) && progress(ts, p, q) {
                    ty(ts, q + 1)
                } else {
                    None
                }) {
                    Some((t, r)) => node(ts, p, r, SExpr::Continue { input: Box::new(a), output: Some(t) }),
                    None => node(ts, p, q, SExpr::Continue { input: Box::new(a), output: None }),
                },
                None => None,
            },
            SpecToken::Product => {
                let (xs, q) = items_or_none(ts, p + 1, Kind::Expr);
                node(ts, p, q, SExpr::Product(as_exprs(xs)))
            },
            SpecToken::ArrayBegin => {
                let (xs, q) = items(ts, p + 1, Kind::Expr);
                if is_tok(ts, q, SpecToken::ArrayEnd) {
                    node(ts, p, q + 1, SExpr::Vector(as_exprs(xs)))
                } else {
                    None
                }
            },
            SpecToken::SetBegin => {
                let (xs, q) = items(ts, p + 1, Kind::Expr);
                if is_tok(ts, q, SpecToken::SetEnd) {
                    node(ts, p, q + 1, SExpr::SetOf(as_exprs(xs)))
                } else {
                    None
                }
            },
            SpecToken::FromHere => match expr(ts, p + 1) {
                Some((a, q)) => if is_tok(ts, q, SpecToken::TypeAnnotation) && progress(ts, p, q) {
                    match ty(ts, q + 1) {
                        Some((t, r)) => node(ts, p, r, SExpr::Typed { ty: t, item: Box::new(a) }),
                        None => None,
                    }
                } else {
                    None
                },
                None => None,
            },
            SpecToken::Attribute => match expr(ts, p + 1) {
                Some((a, q)) => if progress(ts, p, q) {
                    match expr(ts, skip_in(ts, q)) {
                        Some((b, r)) => node(ts, p, r, SExpr::Attribute { attr: Box::new(a), item: Box::new(b) }),
                        None => None,
                    }
                } else {
                    None
                },
                None => None,
            },
            SpecToken::Brands => {
                let (xs, q) = items_or_none(ts, p + 1, Kind::Ident);
                if progress(ts, p, q) {
                    match expr(ts, skip_in(ts, q)) {
                        Some((b, r)) => node(ts, p, r, SExpr::Brand { brands: as_idents(xs), item: Box::new(b) }),
                        None => None,
                    }
                } else {
                    None
                }
            },
            SpecToken::Sum => match expr(ts, p + 1) {
                Some((a, q)) => if progress(ts, p, q) {
                    match items_at_least_one(ts, skip_in(ts, q), Kind::Case) {
                        Some((cs, r)) => node(ts, p, r, SExpr::Match { of: Box::new(a), cases: as_cases(cs) }),
                        None => None,
                    }
                } else {
                    None
                },
                None => None,
            },
            SpecToken::Lambda => {
                let (xs, q) = items(ts, p + 1, Kind::Type);
                if is_tok(ts, q, SpecToken::Arrow) && p < q {
                    match expr(ts, q + 1) {
                        Some((b, r)) => node(ts, p, r, SExpr::Function { parameters: as_types(xs), body: Box::new(b) }),
                        None => None,
                    }
                } else {
                    None
                }
            },
            SpecToken::Apply => match ty(ts, p + 1) {
                Some((f, q)) => {
                    let (link_name, r) = link_name_at(ts, q);
                    if progress(ts, p, q) {
                        match items_at_least_one(ts, skip_in(ts, r), Kind::Expr) {
                            Some((xs, e)) => node(
                                ts,
                                p,
                                e,
                                SExpr::Apply { function: f, link_name, arguments: as_exprs(xs) },
                            ),
                            None => None,
                        }
                    } else {
                        None
                    }
                },
                None => None,
            },
            SpecToken::Reference => match ty(ts, p + 1) {
                Some((f, q)) => {
                    let (link_name, r) = link_name_at(ts, q);
                    node(ts, p, r, SExpr::Apply { function: f, link_name, arguments: seq![] })
                },
                None => None,
            },
            SpecToken::Handle => match expr(ts, p + 1) {
                Some((a, q)) => if progress(ts, p, q) {
                    match items_at_least_one(ts, skip_in(ts, q), Kind::Handler) {
                        Some((hs, r)) => node(ts, p, r, SExpr::Handle { expr: Box::new(a), handlers: as_handlers(hs) }),
                        None => None,
                    }
                } else {
                    None
                },
                None => None,
            },
            SpecToken::Brand(label) => match expr(ts, p + 1) {
                Some((a, q)) => node(ts, p, q, SExpr::Label { label, item: Box::new(a) }),
                None => None,
            },
            SpecToken::Type => if 0 <= p + 1 < ts.len() && ts[p + 1].0 is Ident {
                match ty(ts, p + 2) {
                    Some((t, q)) => if progress(ts, p, q) {
                        match expr(ts, skip_in(ts, q)) {
                            Some((b, r)) => node(
                                ts,
                                p,
                                r,
                                SExpr::NewType { ident: ts[p + 1].0->Ident_0, ty: t, expr: Box::new(b) },
                            ),
                            None => None,
                        }
                    } else {
                        None
                    },
                    None => None,
                }
            } else {
                None
            },
            SpecToken::Card => if 0 <= p + 1 < ts.len() && ts[p + 1].0 is Uuid {
                match expr(ts, p + 2) {
                    Some((a, q)) => if progress(ts, p, q) {
                        let r = skip_in(ts, q);
                        match expr(ts, r) {
                            Some((n, e)) => node(
                                ts,
                                p,
                                e,
                                SExpr::Card { uuid: ts[p + 1].0->Uuid_0, item: Box::new(a), next: Some(Box::new(n)) },
                            ),
                            None => node(
                                ts,
                                p,
                                r,
                                SExpr::Card { uuid: ts[p + 1].0->Uuid_0, item: Box::new(a), next: None },
                            ),
                        }
                    } else {
                        None
                    },
                    None => None,
                }
            } else {
                None
            },
            _ => None,
        }
    } else {
        None
    }
}

/// The type at `p`, chosen by its first token.
pub open spec fn core_type(ts: Tokens, p: int) -> Option<(Spanned<SType>, int)>
    decreases ts.len() - p, 0int,
{
    if 0 <= p < ts.len() {
        match ts[p].0 {
            SpecToken::Infer => node(ts, p, p + 1, SType::Infer),
            SpecToken::Comment(text) => match ty(ts, p + 1) {
                Some((x, q)) => node(
                    ts,
                    p,
                    q,
                    SType::Comment { position: CommentPosition::Prefix, text, item: Box::new(x) },
                ),
                None => None,
            },
            SpecToken::This => node(ts, p, p + 1, SType::This),
            SpecToken::NumberType => node(ts, p, p + 1, SType::Number),
            SpecToken::StringType => node(ts, p, p + 1, SType::String),
            SpecToken::Trait => match items_at_least_one(ts, p + 1, Kind::Type) {
                Some((xs, q)) => node(ts, p, q, SType::Trait(as_types(xs))),
                None => None,
            },
            SpecToken::Perform => match ty(ts, p + 1) {
                Some((t, q)) => if progress(ts, p, q) {
                    match effect_expr(ts, q) {
                        Some((e, r)) => node(ts, p, r, SType::Effectful { ty: Box::new(t), effects: e }),
                        None => None,
                    }
                } else {
                    None
                },
                None => None,
            },
            SpecToken::Product => {
                let (xs, q) = items_or_none(ts, p + 1, Kind::Type);
                node(ts, p, q, SType::Product(as_types(xs)))
            },
            SpecToken::Sum => {
                let (xs, q) = items_or_none(ts, p + 1, Kind::Type);
                node(ts, p, q, SType::Sum(as_types(xs)))
            },
            SpecToken::ArrayBegin => match ty(ts, p + 1) {
                Some((t, q)) => if is_tok(ts, q, SpecToken::ArrayEnd) {
                    node(ts, p, q + 1, SType::Vector(Box::new(t)))
                } else {
                    None
                },
                None => None,
            },
            SpecToken::SetBegin => match ty(ts, p + 1) {
                Some((t, q)) => if is_tok(ts, q, SpecToken::SetEnd) {
                    node(ts, p, q + 1, SType::SetOf(Box::new(t)))
                } else {
                    None
                },
                None => None,
            },
            SpecToken::Lambda => {
                let (xs, q) = items(ts, p + 1, Kind::Type);
                if is_tok(ts, q, SpecToken::Arrow) && p < q {
                    match ty(ts, q + 1) {
                        Some((b, r)) => node(ts, p, r, SType::Function { parameters: as_types(xs), body: Box::new(b) }),
                        None => None,
                    }
                } else {
                    None
                }
            },
            SpecToken::Brand(brand) => match ty(ts, p + 1) {
                Some((t, q)) => node(ts, p, q, SType::Brand { brand, item: Box::new(t) }),
                None => None,
            },
            SpecToken::Attribute => match expr(ts, p + 1) {
                Some((a, q)) => if progress(ts, p, q) {
                    match ty(ts, skip_in(ts, q)) {
                        Some((t, r)) => node(ts, p, r, SType::Attribute { attr: Box::new(a), ty: Box::new(t) }),
                        None => None,
                    }
                } else {
                    None
                },
                None => None,
            },
            SpecToken::Ident(name) => match (if is_tok(ts, p + 1, SpecToken::TypeAnnotation) {
                ty(ts, p + 2)
            } else {
                None
            }) {
                Some((b, r)) => node(ts, p, r, SType::BoundedVariable { bound: Box::new(b), identifier: name }),
                None => node(ts, p, p + 1, SType::Variable(name)),
            },
            SpecToken::A => if 0 <= p + 1 < ts.len() && ts[p + 1].0 is Ident {
                node(ts, p, p + 2, SType::Variable(ts[p + 1].0->Ident_0))
            } else {
                None
            },
            SpecToken::Let => if 0 <= p + 1 < ts.len() && ts[p + 1].0 is Ident {
                match ty(ts, skip_in(ts, p + 2)) {
                    Some((b, q)) => node(ts, p, q, SType::Let { variable: ts[p + 1].0->Ident_0, body: Box::new(b) }),
                    None => None,
                }
            } else {
                None
            },
            _ => None,
        }
    } else {
        None
    }
}

/// The effect expression at `p`, chosen by its first token.
pub open spec fn effect_expr(ts: Tokens, p: int) -> Option<(Spanned<SEffectExpr>, int)>
    decreases ts.len() - p, 1int,
{
    if 0 <= p < ts.len() {
        match ts[p].0 {
            SpecToken::SetBegin => {
                let (xs, q) = items(ts, p + 1, Kind::Effect);
                if is_tok(ts, q, SpecToken::SetEnd) {
                    node(ts, p, q + 1, SEffectExpr::Effects(as_effects(xs)))
                } else {
                    None
                }
            },
            SpecToken::Apply => match ty(ts, p + 1) {
                Some((f, q)) => if progress(ts, p, q) {
                    let (xs, r) = items_or_none(ts, skip_in(ts, q), Kind::Type);
                    node(ts, p, r, SEffectExpr::Apply { function: Box::new(f), arguments: as_types(xs) })
                } else {
                    None
                },
                None => None,
            },
            SpecToken::Sum => {
                let (xs, q) = items_or_none(ts, p + 1, Kind::EffectExpr);
                node(ts, p, q, SEffectExpr::Add(as_effect_exprs(xs)))
            },
            SpecToken::Minus => match effect_expr(ts, p + 1) {
                Some((m, q)) => if is_tok(ts, q, SpecToken::Comma) && progress(ts, p, q) {
                    match effect_expr(ts, q + 1) {
                        Some((s, r)) => node(ts, p, r, SEffectExpr::Sub { minuend: Box::new(m), subtrahend: Box::new(s) }),
                        None => None,
                    }
                } else {
                    None
                },
                None => None,
            },
            _ => None,
        }
    } else {
        None
    }
}

/// The tokens by their models.
pub open spec fn tv(ts: Vec<(Token, Range<usize>)>) -> Tokens {
    crate::lexer::tokens_view(ts@)
}

/// An item of a list.
pub enum ItemNode {
    Expr(WithSpan<Expr>),
    Type(WithSpan<Type>),
    Ident(String),
    Handler(Handler),
    Case(MatchCase),
    Effect(WithSpan<Effect>),
    EffectExpr(WithSpan<EffectExpr>),
}

pub open spec fn item_view(x: ItemNode) -> Item {
    match x {
        ItemNode::Expr(e) => Item::Expr(crate::syntax::expr_of(e)),
        ItemNode::Type(t) => Item::Type(crate::syntax::type_of(t)),
        ItemNode::Ident(s) => Item::Ident(s@),
        ItemNode::Handler(h) => Item::Handler(
            (crate::syntax::type_of(h.input), crate::syntax::type_of(h.output), crate::syntax::expr_of(h.handler)),
        ),
        ItemNode::Case(c) => Item::Case((crate::syntax::type_of(c.ty), crate::syntax::expr_of(c.expr))),
        ItemNode::Effect(e) => Item::Effect(crate::syntax::effect_of(e)),
        ItemNode::EffectExpr(e) => Item::EffectExpr(crate::syntax::effect_expr_of(e)),
    }
}

pub open spec fn item_kind(x: ItemNode) -> Kind {
    match x {
        ItemNode::Expr(_) => Kind::Expr,
        ItemNode::Type(_) => Kind::Type,
        ItemNode::Ident(_) => Kind::Ident,
        ItemNode::Handler(_) => Kind::Handler,
        ItemNode::Case(_) => Kind::Case,
        ItemNode::Effect(_) => Kind::Effect,
        ItemNode::EffectExpr(_) => Kind::EffectExpr,
    }
}

pub open spec fn items_view(v: Seq<ItemNode>) -> Seq<Item> {
    Seq::new(v.len(), |i: int| item_view(v[i]))
}

/// A node of `value` spanning the tokens from `p` up to `q`, with a random
/// identifier.
fn node_at<T>(ts: &Vec<(Token, Range<usize>)>, p: usize, q: usize, value: T) -> (r: WithSpan<T>)
    requires
        p < q <= ts@.len(),
    ensures
        r.value == value,
        r.span == span_of(tv(*ts), p as int, q as int),
{
    WithSpan {
        id: crate::hirgen::random_node_id(),
        value,
        span: Span { start: ts[p].1.start, end: ts[q - 1].1.end },
    }
}

/// The place after an `in` at `q`, if one is there.
fn skip_in_at(ts: &Vec<(Token, Range<usize>)>, q: usize) -> (r: usize)
    requires
        q <= ts@.len(),
    ensures
        r == skip_in(tv(*ts), q as int),
        q <= r <= ts@.len(),
{
    if q < ts.len() && matches!(ts[q].0, Token::In) {
        q + 1
    } else {
        q
    }
}

/// The place after a dot at `q`, if one is there.
fn skip_dot_at(ts: &Vec<(Token, Range<usize>)>, q: usize) -> (r: usize)
    requires
        q <= ts@.len(),
    ensures
        r == skip_dot(tv(*ts), q as int),
        q <= r <= ts@.len(),
{
    if q < ts.len() && matches!(ts[q].0, Token::Dot) {
        q + 1
    } else {
        q
    }
}

fn into_exprs(v: Vec<ItemNode>) -> (r: Vec<WithSpan<Expr>>)
    requires
        forall|i: int| 0 <= i < v@.len() ==> item_kind(#[trigger] v@[i]) == Kind::Expr,
    ensures
        crate::syntax::exprs_of(r) == as_exprs(items_view(v@)),
{
    let mut v = v;
    let ghost whole = v@;
    let mut r: Vec<WithSpan<Expr>> = Vec::new();
    let mut i: usize = 0;
    while i < v.len()
        invariant
            i <= v@.len(),
            v@.len() == whole.len(),
            forall|j: int| i <= j < v@.len() ==> v@[j] == whole[j],
            forall|j: int| 0 <= j < whole.len() ==> item_kind(#[trigger] whole[j]) == Kind::Expr,
            r@.len() == i,
            forall|j: int| 0 <= j < i ==> crate::syntax::expr_of(#[trigger] r@[j]) == as_exprs(items_view(whole))[j],
        decreases v@.len() - i,
    {
        let mut slot = ItemNode::Ident(String::new());
        std::mem::swap(&mut v[i], &mut slot);
        proof {
            assert(slot == whole[i as int]);
        }
        match slot {
            ItemNode::Expr(e) => {
                r.push(e);
            },
            _ => {
                proof {
                    assert(false);
                }
            },
        }
        i += 1;
    }
    proof {
        assert(crate::syntax::exprs_of(r) =~= as_exprs(items_view(whole)));
    }
    r
}

fn into_types(v: Vec<ItemNode>) -> (r: Vec<WithSpan<Type>>)
    requires
        forall|i: int| 0 <= i < v@.len() ==> item_kind(#[trigger] v@[i]) == Kind::Type,
    ensures
        crate::syntax::types_of(r) == as_types(items_view(v@)),
{
    let mut v = v;
    let ghost whole = v@;
    let mut r: Vec<WithSpan<Type>> = Vec::new();
    let mut i: usize = 0;
    while i < v.len()
        invariant
            i <= v@.len(),
            v@.len() == whole.len(),
            forall|j: int| i <= j < v@.len() ==> v@[j] == whole[j],
            forall|j: int| 0 <= j < whole.len() ==> item_kind(#[trigger] whole[j]) == Kind::Type,
            r@.len() == i,
            forall|j: int| 0 <= j < i ==> crate::syntax::type_of(#[trigger] r@[j]) == as_types(items_view(whole))[j],
        decreases v@.len() - i,
    {
        let mut slot = ItemNode::Ident(String::new());
        std::mem::swap(&mut v[i], &mut slot);
        proof {
            assert(slot == whole[i as int]);
        }
        match slot {
            ItemNode::Type(e) => {
                r.push(e);
            },
            _ => {
                proof {
                    assert(false);
                }
            },
        }
        i += 1;
    }
    proof {
        assert(crate::syntax::types_of(r) =~= as_types(items_view(whole)));
    }
    r
}

fn into_idents(v: Vec<ItemNode>) -> (r: Vec<String>)
    requires
        forall|i: int| 0 <= i < v@.len() ==> item_kind(#[trigger] v@[i]) == Kind::Ident,
    ensures
        Seq::new(r@.len(), |i: int| r@[i]@) == as_idents(items_view(v@)),
{
    let mut v = v;
    let ghost whole = v@;
    let mut r: Vec<String> = Vec::new();
    let mut i: usize = 0;
    while i < v.len()
        invariant
            i <= v@.len(),
            v@.len() == whole.len(),
            forall|j: int| i <= j < v@.len() ==> v@[j] == whole[j],
            forall|j: int| 0 <= j < whole.len() ==> item_kind(#[trigger] whole[j]) == Kind::Ident,
            r@.len() == i,
            forall|j: int| 0 <= j < i ==> (#[trigger] r@[j])@ == as_idents(items_view(whole))[j],
        decreases v@.len() - i,
    {
        let mut slot = ItemNode::Ident(String::new());
        std::mem::swap(&mut v[i], &mut slot);
        proof {
            assert(slot == whole[i as int]);
        }
        match slot {
            ItemNode::Ident(e) => {
                r.push(e);
            },
            _ => {
                proof {
                    assert(false);
                }
            },
        }
        i += 1;
    }
    proof {
        assert(Seq::new(r@.len(), |i: int| r@[i]@) =~= as_idents(items_view(whole)));
    }
    r
}

fn into_handlers(v: Vec<ItemNode>) -> (r: Vec<Handler>)
    requires
        forall|i: int| 0 <= i < v@.len() ==> item_kind(#[trigger] v@[i]) == Kind::Handler,
    ensures
        Seq::new(
            r@.len(),
            |i: int|
                (
                    crate::syntax::type_of(r@[i].input),
                    crate::syntax::type_of(r@[i].output),
                    crate::syntax::expr_of(r@[i].handler),
                ),
        ) == as_handlers(items_view(v@)),
{
    let mut v = v;
    let ghost whole = v@;
    let mut r: Vec<Handler> = Vec::new();
    let mut i: usize = 0;
    while i < v.len()
        invariant
            i <= v@.len(),
            v@.len() == whole.len(),
            forall|j: int| i <= j < v@.len() ==> v@[j] == whole[j],
            forall|j: int| 0 <= j < whole.len() ==> item_kind(#[trigger] whole[j]) == Kind::Handler,
            r@.len() == i,
            forall|j: int|
                0 <= j < i ==> (
                    crate::syntax::type_of(#[trigger] r@[j].input),
                    crate::syntax::type_of(r@[j].output),
                    crate::syntax::expr_of(r@[j].handler),
                ) == as_handlers(items_view(whole))[j],
        decreases v@.len() - i,
    {
        let mut slot = ItemNode::Ident(String::new());
        std::mem::swap(&mut v[i], &mut slot);
        proof {
            assert(slot == whole[i as int]);
        }
        match slot {
            ItemNode::Handler(e) => {
                r.push(e);
            },
            _ => {
                proof {
                    assert(false);
                }
            },
        }
        i += 1;
    }
    proof {
        assert(Seq::new(
            r@.len(),
            |i: int|
                (
                    crate::syntax::type_of(r@[i].input),
                    crate::syntax::type_of(r@[i].output),
                    crate::syntax::expr_of(r@[i].handler),
                ),
        ) =~= as_handlers(items_view(whole)));
    }
    r
}

fn into_cases(v: Vec<ItemNode>) -> (r: Vec<MatchCase>)
    requires
        forall|i: int| 0 <= i < v@.len() ==> item_kind(#[trigger] v@[i]) == Kind::Case,
    ensures
        Seq::new(r@.len(), |i: int| (crate::syntax::type_of(r@[i].ty), crate::syntax::expr_of(r@[i].expr)))
            == as_cases(items_view(v@)),
{
    let mut v = v;
    let ghost whole = v@;
    let mut r: Vec<MatchCase> = Vec::new();
    let mut i: usize = 0;
    while i < v.len()
        invariant
            i <= v@.len(),
            v@.len() == whole.len(),
            forall|j: int| i <= j < v@.len() ==> v@[j] == whole[j],
            forall|j: int| 0 <= j < whole.len() ==> item_kind(#[trigger] whole[j]) == Kind::Case,
            r@.len() == i,
            forall|j: int|
                0 <= j < i ==> (crate::syntax::type_of(#[trigger] r@[j].ty), crate::syntax::expr_of(r@[j].expr))
                    == as_cases(items_view(whole))[j],
        decreases v@.len() - i,
    {
        let mut slot = ItemNode::Ident(String::new());
        std::mem::swap(&mut v[i], &mut slot);
        proof {
            assert(slot == whole[i as int]);
        }
        match slot {
            ItemNode::Case(e) => {
                r.push(e);
            },
            _ => {
                proof {
                    assert(false);
                }
            },
        }
        i += 1;
    }
    proof {
        assert(Seq::new(r@.len(), |i: int| (crate::syntax::type_of(r@[i].ty), crate::syntax::expr_of(r@[i].expr)))
            =~= as_cases(items_view(whole)));
    }
    r
}

fn into_effects(v: Vec<ItemNode>) -> (r: Vec<WithSpan<Effect>>)
    requires
        forall|i: int| 0 <= i < v@.len() ==> item_kind(#[trigger] v@[i]) == Kind::Effect,
    ensures
        Seq::new(r@.len(), |i: int| crate::syntax::effect_of(r@[i])) == as_effects(items_view(v@)),
{
    let mut v = v;
    let ghost whole = v@;
    let mut r: Vec<WithSpan<Effect>> = Vec::new();
    let mut i: usize = 0;
    while i < v.len()
        invariant
            i <= v@.len(),
            v@.len() == whole.len(),
            forall|j: int| i <= j < v@.len() ==> v@[j] == whole[j],
            forall|j: int| 0 <= j < whole.len() ==> item_kind(#[trigger] whole[j]) == Kind::Effect,
            r@.len() == i,
            forall|j: int| 0 <= j < i ==> crate::syntax::effect_of(#[trigger] r@[j]) == as_effects(items_view(whole))[j],
        decreases v@.len() - i,
    {
        let mut slot = ItemNode::Ident(String::new());
        std::mem::swap(&mut v[i], &mut slot);
        proof {
            assert(slot == whole[i as int]);
        }
        match slot {
            ItemNode::Effect(e) => {
                r.push(e);
            },
            _ => {
                proof {
                    assert(false);
                }
            },
        }
        i += 1;
    }
    proof {
        assert(Seq::new(r@.len(), |i: int| crate::syntax::effect_of(r@[i])) =~= as_effects(items_view(whole)));
    }
    r
}

fn into_effect_exprs(v: Vec<ItemNode>) -> (r: Vec<WithSpan<EffectExpr>>)
    requires
        forall|i: int| 0 <= i < v@.len() ==> item_kind(#[trigger] v@[i]) == Kind::EffectExpr,
    ensures
        Seq::new(r@.len(), |i: int| crate::syntax::effect_expr_of(r@[i])) == as_effect_exprs(items_view(v@)),
{
    let mut v = v;
    let ghost whole = v@;
    let mut r: Vec<WithSpan<EffectExpr>> = Vec::new();
    let mut i: usize = 0;
    while i < v.len()
        invariant
            i <= v@.len(),
            v@.len() == whole.len(),
            forall|j: int| i <= j < v@.len() ==> v@[j] == whole[j],
            forall|j: int| 0 <= j < whole.len() ==> item_kind(#[trigger] whole[j]) == Kind::EffectExpr,
            r@.len() == i,
            forall|j: int|
                0 <= j < i ==> crate::syntax::effect_expr_of(#[trigger] r@[j]) == as_effect_exprs(items_view(whole))[j],
        decreases v@.len() - i,
    {
        let mut slot = ItemNode::Ident(String::new());
        std::mem::swap(&mut v[i], &mut slot);
        proof {
            assert(slot == whole[i as int]);
        }
        match slot {
            ItemNode::EffectExpr(e) => {
                r.push(e);
            },
            _ => {
                proof {
                    assert(false);
                }
            },
        }
        i += 1;
    }
    proof {
        assert(Seq::new(r@.len(), |i: int| crate::syntax::effect_expr_of(r@[i])) =~= as_effect_exprs(items_view(whole)));
    }
    r
}

/// The item of kind `k` at `p`.
#[verifier::rlimit(40)]
fn parse_item(ts: &Vec<(Token, Range<usize>)>, p: usize, k: Kind) -> (r: Option<(ItemNode, usize)>)
    requires
        p <= ts@.len(),
    ensures
        match r {
            Some((x, q)) => item(tv(*ts), p as int, k) == Some((item_view(x), q as int)) && item_kind(x) == k && p < q
                <= ts@.len(),
            None => item(tv(*ts), p as int, k) is None,
        },
    decreases ts@.len() - p, 3int,
{
    match k {
        Kind::Expr => match parse_expr(ts, p) {
            Some((x, q)) => Some((ItemNode::Expr(x), q)),
            None => None,
        },
        Kind::Type => match parse_type(ts, p) {
            Some((x, q)) => Some((ItemNode::Type(x), q)),
            None => None,
        },
        Kind::Ident => {
            if p < ts.len() {
                if let Token::Ident(name) = &ts[p].0 {
                    return Some((ItemNode::Ident(name.clone()), p + 1));
                }
            }
            None
        },
        Kind::Handler => {
            let (a, q) = match parse_type(ts, p) {
                Some(v) => v,
                None => return None,
            };
            if !(q < ts.len() && matches!(ts[q].0, Token::EArrow)) {
                return None;
            }
            let (b, r) = match parse_type(ts, q + 1) {
                Some(v) => v,
                None => return None,
            };
            let r2 = if r < ts.len() && matches!(ts[r].0, Token::Arrow) {
                r + 1
            } else {
                r
            };
            let (c, e) = match parse_expr(ts, r2) {
                Some(v) => v,
                None => return None,
            };
            Some((ItemNode::Handler(Handler { input: a, output: b, handler: c }), e))
        },
        Kind::Case => {
            let (a, q) = match parse_type(ts, p) {
                Some(v) => v,
                None => return None,
            };
            if !(q < ts.len() && matches!(ts[q].0, Token::Arrow)) {
                return None;
            }
            let (b, r) = match parse_expr(ts, q + 1) {
                Some(v) => v,
                None => return None,
            };
            Some((ItemNode::Case(MatchCase { ty: a, expr: b }), r))
        },
        Kind::Effect => {
            let (a, q) = match parse_type(ts, p) {
                Some(v) => v,
                None => return None,
            };
            if !(q < ts.len() && matches!(ts[q].0, Token::EArrow)) {
                return None;
            }
            let (b, r) = match parse_type(ts, q + 1) {
                Some(v) => v,
                None => return None,
            };
            Some((ItemNode::Effect(node_at(ts, p, r, Effect { input: a, output: b })), r))
        },
        Kind::EffectExpr => match parse_effect_expr(ts, p) {
            Some((x, q)) => Some((ItemNode::EffectExpr(x), q)),
            None => None,
        },
    }
}

/// The items of kind `k` from `p` on, separated by commas.
fn parse_items(ts: &Vec<(Token, Range<usize>)>, p: usize, k: Kind) -> (r: (Vec<ItemNode>, usize))
    requires
        p <= ts@.len(),
    ensures
        items_view(r.0@) == items(tv(*ts), p as int, k).0,
        r.1 == items(tv(*ts), p as int, k).1,
        p <= r.1 <= ts@.len(),
        r.0@.len() > 0 ==> p < r.1,
        forall|i: int| 0 <= i < r.0@.len() ==> item_kind(#[trigger] r.0@[i]) == k,
    decreases ts@.len() - p, 4int,
{
    let mut out: Vec<ItemNode> = Vec::new();
    match parse_item(ts, p, k) {
        None => {
            proof {
                assert(items_view(out@) =~= seq![]);
            }
            (out, p)
        },
        Some((x, q)) => {
            let ghost first = item_view(x);
            out.push(x);
            let mut pos = q;
            proof {
                assert(items_view(out@) =~= seq![first]);
            }
            loop
                invariant
                    p < pos <= ts@.len(),
                    items(tv(*ts), p as int, k) == (items_view(out@) + more_items(tv(*ts), pos as int, k).0, more_items(
                        tv(*ts),
                        pos as int,
                        k,
                    ).1),
                    forall|i: int| 0 <= i < out@.len() ==> item_kind(#[trigger] out@[i]) == k,
                decreases ts@.len() - pos,
            {
                if pos < ts.len() && matches!(ts[pos].0, Token::Comma) {
                    match parse_item(ts, pos + 1, k) {
                        Some((x, r)) => {
                            let ghost before = items_view(out@);
                            let ghost v = item_view(x);
                            out.push(x);
                            proof {
                                assert(items_view(out@) =~= before.push(v));
                                let rest = more_items(tv(*ts), r as int, k).0;
                                assert(before + (seq![v] + rest) =~= before.push(v) + rest);
                            }
                            pos = r;
                        },
                        None => {
                            proof {
                                assert(items_view(out@) + seq![] =~= items_view(out@));
                            }
                            return (out, pos);
                        },
                    }
                } else {
                    proof {
                        assert(items_view(out@) + seq![] =~= items_view(out@));
                    }
                    return (out, pos);
                }
            }
        },
    }
}

/// At least one item, separated by commas, then a dot if one is there.
fn parse_items_at_least_one(ts: &Vec<(Token, Range<usize>)>, p: usize, k: Kind) -> (r: Option<(Vec<ItemNode>, usize)>)
    requires
        p <= ts@.len(),
    ensures
        match r {
            Some((v, q)) => items_at_least_one(tv(*ts), p as int, k) == Some((items_view(v@), q as int)) && p < q
                <= ts@.len() && forall|i: int| 0 <= i < v@.len() ==> item_kind(#[trigger] v@[i]) == k,
            None => items_at_least_one(tv(*ts), p as int, k) is None,
        },
    decreases ts@.len() - p, 5int,
{
    let (v, q) = parse_items(ts, p, k);
    if v.len() > 0 {
        let e = skip_dot_at(ts, q);
        proof {
            assert(items_view(v@).len() > 0);
        }
        Some((v, e))
    } else {
        None
    }
}

/// Items separated by commas, then a dot if one is there; or none.
fn parse_items_or_none(ts: &Vec<(Token, Range<usize>)>, p: usize, k: Kind) -> (r: (Vec<ItemNode>, usize))
    requires
        p <= ts@.len(),
    ensures
        items_view(r.0@) == items_or_none(tv(*ts), p as int, k).0,
        r.1 == items_or_none(tv(*ts), p as int, k).1,
        p <= r.1 <= ts@.len(),
        forall|i: int| 0 <= i < r.0@.len() ==> item_kind(#[trigger] r.0@[i]) == k,
    decreases ts@.len() - p, 6int,
{
    match parse_items_at_least_one(ts, p, k) {
        Some(r) => r,
        None => {
            let v: Vec<ItemNode> = Vec::new();
            proof {
                assert(items_view(v@) =~= seq![]);
            }
            (v, p)
        },
    }
}


/// What an expression parser gave back, against the model.
pub open spec fn expr_result(s: Option<(Spanned<SExpr>, int)>, r: Option<(WithSpan<Expr>, usize)>, p: int, n: int) -> bool {
    match r {
        Some((x, q)) => s == Some((crate::syntax::expr_of(x), q as int)) && p < q <= n,
        None => s is None,
    }
}

/// What a type parser gave back, against the model.
pub open spec fn type_result(s: Option<(Spanned<SType>, int)>, r: Option<(WithSpan<Type>, usize)>, p: int, n: int) -> bool {
    match r {
        Some((x, q)) => s == Some((crate::syntax::type_of(x), q as int)) && p < q <= n,
        None => s is None,
    }
}

/// What an effect expression parser gave back, against the model.
pub open spec fn effect_result(
    s: Option<(Spanned<SEffectExpr>, int)>,
    r: Option<(WithSpan<EffectExpr>, usize)>,
    p: int,
    n: int,
) -> bool {
    match r {
        Some((x, q)) => s == Some((crate::syntax::effect_expr_of(x), q as int)) && p < q <= n,
        None => s is None,
    }
}

/// The link name at `q`: a card and its identifier, or none.
fn link_name_from(ts: &Vec<(Token, Range<usize>)>, q: usize) -> (r: (LinkName, usize))
    requires
        q <= ts@.len(),
    ensures
        (r.0, r.1 as int) == link_name_at(tv(*ts), q as int),
        q <= r.1 <= ts@.len(),
{
    if q < ts.len() && q + 1 < ts.len() && matches!(ts[q].0, Token::Card) {
        if let Token::Uuid(u) = &ts[q + 1].0 {
            return (LinkName::Card(*u), q + 2);
        }
    }
    (LinkName::Unnamed, q)
}

/// The expression at `p`, with a comment right after it kept on it.
fn parse_expr(ts: &Vec<(Token, Range<usize>)>, p: usize) -> (r: Option<(WithSpan<Expr>, usize)>)
    requires
        p <= ts@.len(),
    ensures
        expr_result(expr(tv(*ts), p as int), r, p as int, ts@.len() as int),
    decreases ts@.len() - p, 2int,
{
    let (x, q) = match parse_core_expr(ts, p) {
        Some(v) => v,
        None => return None,
    };
    if q < ts.len() {
        if let Token::Comment(text) = &ts[q].0 {
            let c = node_at(
                ts,
                p,
                q + 1,
                Expr::Comment { position: CommentPosition::Suffix, text: text.clone(), item: Box::new(x) },
            );
            return Some((c, q + 1));
        }
    }
    Some((x, q))
}

/// The expression at `p`, chosen by its first token.
fn parse_core_expr(ts: &Vec<(Token, Range<usize>)>, p: usize) -> (r: Option<(WithSpan<Expr>, usize)>)
    requires
        p <= ts@.len(),
    ensures
        expr_result(core_expr(tv(*ts), p as int), r, p as int, ts@.len() as int),
    decreases ts@.len() - p, 1int,
{
    if p >= ts.len() {
        return None;
    }
    match &ts[p].0 {
        Token::Hole => Some((node_at(ts, p, p + 1, Expr::Hole), p + 1)),
        Token::Int(_) => Some(expr_number(ts, p)),
        Token::Str(s) => Some((node_at(ts, p, p + 1, Expr::Literal(Literal::String(s.clone()))), p + 1)),
        Token::Comment(_) => expr_prefix_comment(ts, p),
        Token::Let => expr_let(ts, p),
        Token::Perform => expr_perform(ts, p),
        Token::Continue => expr_continue(ts, p),
        Token::Product => expr_product(ts, p),
        Token::ArrayBegin => expr_collection(ts, p),
        Token::SetBegin => expr_collection(ts, p),
        Token::FromHere => expr_typed(ts, p),
        Token::Attribute => expr_attribute(ts, p),
        Token::Brands => expr_brands(ts, p),
        Token::Sum => expr_match(ts, p),
        Token::Lambda => expr_function(ts, p),
        Token::Apply => expr_apply(ts, p),
        Token::Reference => expr_reference(ts, p),
        Token::Handle => expr_handle(ts, p),
        Token::Brand(_) => expr_label(ts, p),
        Token::Type => expr_new_type(ts, p),
        Token::Card => expr_card(ts, p),
        _ => None,
    }
}

/// An integer, or a rational: an integer, a divide and an integer.
fn expr_number(ts: &Vec<(Token, Range<usize>)>, p: usize) -> (r: (WithSpan<Expr>, usize))
    requires
        p < ts@.len() <= usize::MAX,
        ts@[p as int].0 is Int,
    ensures
        expr_result(core_expr(tv(*ts), p as int), Some(r), p as int, ts@.len() as int),
{
    let a = match &ts[p].0 {
        Token::Int(a) => *a,
        _ => 0,
    };
    if p + 1 < ts.len() && p + 2 < ts.len() && matches!(ts[p + 1].0, Token::Divide) {
        if let Token::Int(b) = &ts[p + 2].0 {
            return (node_at(ts, p, p + 3, Expr::Literal(Literal::Rational(a, *b))), p + 3);
        }
    }
    (node_at(ts, p, p + 1, Expr::Literal(Literal::Integer(a))), p + 1)
}

/// A comment, then the expression it stands before.
fn expr_prefix_comment(ts: &Vec<(Token, Range<usize>)>, p: usize) -> (r: Option<(WithSpan<Expr>, usize)>)
    requires
        p < ts@.len() <= usize::MAX,
        ts@[p as int].0 is Comment,
    ensures
        expr_result(core_expr(tv(*ts), p as int), r, p as int, ts@.len() as int),
    decreases ts@.len() - p, 0int,
{
    let text = match &ts[p].0 {
        Token::Comment(t) => t.clone(),
        _ => String::new(),
    };
    let (x, q) = match parse_expr(ts, p + 1) {
        Some(v) => v,
        None => return None,
    };
    Some((node_at(ts, p, q, Expr::Comment { position: CommentPosition::Prefix, text, item: Box::new(x) }), q))
}

/// The type given after a colon at `q`, and the place after it; a type
/// to infer, spanning nothing, if none is given there.
fn annotation_at(ts: &Vec<(Token, Range<usize>)>, q: usize) -> (r: (WithSpan<Type>, usize))
    requires
        q <= ts@.len(),
    ensures
        (crate::syntax::type_of(r.0), r.1 as int) == annotation(tv(*ts), q as int),
        q <= r.1 <= ts@.len(),
    decreases ts@.len() - q, 0int,
{
    let given = if q < ts.len() && matches!(ts[q].0, Token::TypeAnnotation) {
        parse_type(ts, q + 1)
    } else {
        None
    };
    match given {
        Some(v) => v,
        None => (WithSpan { id: crate::hirgen::random_node_id(), value: Type::Infer, span: Span { start: 0, end: 0 } }, q),
    }
}

/// `let`: a definition, an optional type, an optional `in` and a body.
#[verifier::rlimit(40)]
fn expr_let(ts: &Vec<(Token, Range<usize>)>, p: usize) -> (r: Option<(WithSpan<Expr>, usize)>)
    requires
        p < ts@.len() <= usize::MAX,
        ts@[p as int].0 is Let,
    ensures
        expr_result(core_expr(tv(*ts), p as int), r, p as int, ts@.len() as int),
    decreases ts@.len() - p, 0int,
{
    let (d, q) = match parse_expr(ts, p + 1) {
        Some(v) => v,
        None => return None,
    };
    let (t, e) = annotation_at(ts, q);
    let s = skip_in_at(ts, e);
    let (b, f) = match parse_expr(ts, s) {
        Some(v) => v,
        None => return None,
    };
    Some((node_at(ts, p, f, Expr::Let { ty: t, definition: Box::new(d), body: Box::new(b) }), f))
}

/// `perform`: an expression, an effect arrow and the output type.
fn expr_perform(ts: &Vec<(Token, Range<usize>)>, p: usize) -> (r: Option<(WithSpan<Expr>, usize)>)
    requires
        p < ts@.len() <= usize::MAX,
        ts@[p as int].0 is Perform,
    ensures
        expr_result(core_expr(tv(*ts), p as int), r, p as int, ts@.len() as int),
    decreases ts@.len() - p, 0int,
{
    let (a, q) = match parse_expr(ts, p + 1) {
        Some(v) => v,
        None => return None,
    };
    if !(q < ts.len() && matches!(ts[q].0, Token::EArrow)) {
        return None;
    }
    let (t, e) = match parse_type(ts, q + 1) {
        Some(v) => v,
        None => return None,
    };
    Some((node_at(ts, p, e, Expr::Perform { input: Box::new(a), output: t }), e))
}

/// `continue`: an expression, then an effect arrow and the output type if
/// they are there.
fn expr_continue(ts: &Vec<(Token, Range<usize>)>, p: usize) -> (r: Option<(WithSpan<Expr>, usize)>)
    requires
        p < ts@.len() <= usize::MAX,
        ts@[p as int].0 is Continue,
    ensures
        expr_result(core_expr(tv(*ts), p as int), r, p as int, ts@.len() as int),
    decreases ts@.len() - p, 0int,
{
    let (a, q) = match parse_expr(ts, p + 1) {
        Some(v) => v,
        None => return None,
    };
    let given = if q < ts.len() && matches!(ts[q].0, Token::EArrow) {
        parse_type(ts, q + 1)
    } else {
        None
    };
    match given {
        Some((t, e)) => Some((node_at(ts, p, e, Expr::Continue { input: Box::new(a), output: Some(t) }), e)),
        None => Some((node_at(ts, p, q, Expr::Continue { input: Box::new(a), output: None }), q)),
    }
}

/// A product of expressions.
fn expr_product(ts: &Vec<(Token, Range<usize>)>, p: usize) -> (r: Option<(WithSpan<Expr>, usize)>)
    requires
        p < ts@.len() <= usize::MAX,
        ts@[p as int].0 is Product,
    ensures
        expr_result(core_expr(tv(*ts), p as int), r, p as int, ts@.len() as int),
    decreases ts@.len() - p, 0int,
{
    let (xs, q) = parse_items_or_none(ts, p + 1, Kind::Expr);
    let v = into_exprs(xs);
    Some((node_at(ts, p, q, Expr::Product(v)), q))
}

/// A vector or a set of expressions, between its brackets.
fn expr_collection(ts: &Vec<(Token, Range<usize>)>, p: usize) -> (r: Option<(WithSpan<Expr>, usize)>)
    requires
        p < ts@.len() <= usize::MAX,
        ts@[p as int].0 is ArrayBegin || ts@[p as int].0 is SetBegin,
    ensures
        expr_result(core_expr(tv(*ts), p as int), r, p as int, ts@.len() as int),
    decreases ts@.len() - p, 0int,
{
    let (xs, q) = parse_items(ts, p + 1, Kind::Expr);
    let v = into_exprs(xs);
    if matches!(ts[p].0, Token::ArrayBegin) {
        if q < ts.len() && matches!(ts[q].0, Token::ArrayEnd) {
            Some((node_at(ts, p, q + 1, Expr::Vector(v)), q + 1))
        } else {
            None
        }
    } else {
        if q < ts.len() && matches!(ts[q].0, Token::SetEnd) {
            Some((node_at(ts, p, q + 1, Expr::SetOf(v)), q + 1))
        } else {
            None
        }
    }
}

/// An expression with its type.
fn expr_typed(ts: &Vec<(Token, Range<usize>)>, p: usize) -> (r: Option<(WithSpan<Expr>, usize)>)
    requires
        p < ts@.len() <= usize::MAX,
        ts@[p as int].0 is FromHere,
    ensures
        expr_result(core_expr(tv(*ts), p as int), r, p as int, ts@.len() as int),
    decreases ts@.len() - p, 0int,
{
    let (a, q) = match parse_expr(ts, p + 1) {
        Some(v) => v,
        None => return None,
    };
    if !(q < ts.len() && matches!(ts[q].0, Token::TypeAnnotation)) {
        return None;
    }
    let (t, e) = match parse_type(ts, q + 1) {
        Some(v) => v,
        None => return None,
    };
    Some((node_at(ts, p, e, Expr::Typed { ty: t, item: Box::new(a) }), e))
}

/// An attribute, then the expression it is on.
fn expr_attribute(ts: &Vec<(Token, Range<usize>)>, p: usize) -> (r: Option<(WithSpan<Expr>, usize)>)
    requires
        p < ts@.len() <= usize::MAX,
        ts@[p as int].0 is Attribute,
    ensures
        expr_result(core_expr(tv(*ts), p as int), r, p as int, ts@.len() as int),
    decreases ts@.len() - p, 0int,
{
    let (a, q) = match parse_expr(ts, p + 1) {
        Some(v) => v,
        None => return None,
    };
    let s = skip_in_at(ts, q);
    let (b, e) = match parse_expr(ts, s) {
        Some(v) => v,
        None => return None,
    };
    Some((node_at(ts, p, e, Expr::Attribute { attr: Box::new(a), item: Box::new(b) }), e))
}

/// Brands, then the expression they are on.
fn expr_brands(ts: &Vec<(Token, Range<usize>)>, p: usize) -> (r: Option<(WithSpan<Expr>, usize)>)
    requires
        p < ts@.len() <= usize::MAX,
        ts@[p as int].0 is Brands,
    ensures
        expr_result(core_expr(tv(*ts), p as int), r, p as int, ts@.len() as int),
    decreases ts@.len() - p, 0int,
{
    let (xs, q) = parse_items_or_none(ts, p + 1, Kind::Ident);
    let brands = into_idents(xs);
    let s = skip_in_at(ts, q);
    let (b, e) = match parse_expr(ts, s) {
        Some(v) => v,
        None => return None,
    };
    Some((node_at(ts, p, e, Expr::Brand { brands, item: Box::new(b) }), e))
}

/// A match: the expression matched, then its cases.
#[verifier::rlimit(40)]
fn expr_match(ts: &Vec<(Token, Range<usize>)>, p: usize) -> (r: Option<(WithSpan<Expr>, usize)>)
    requires
        p < ts@.len() <= usize::MAX,
        ts@[p as int].0 is Sum,
    ensures
        expr_result(core_expr(tv(*ts), p as int), r, p as int, ts@.len() as int),
    decreases ts@.len() - p, 0int,
{
    let (a, q) = match parse_expr(ts, p + 1) {
        Some(v) => v,
        None => return None,
    };
    let s = skip_in_at(ts, q);
    let (cs, e) = match parse_items_at_least_one(ts, s, Kind::Case) {
        Some(v) => v,
        None => return None,
    };
    let ghost cv = items_view(cs@);
    let cases = into_cases(cs);
    let x = node_at(ts, p, e, Expr::Match { of: Box::new(a), cases });
    proof {
        assert(crate::syntax::expr_of(x).value->cases =~= as_cases(cv));
    }
    Some((x, e))
}

/// A function: its parameter types, an arrow and its body.
fn expr_function(ts: &Vec<(Token, Range<usize>)>, p: usize) -> (r: Option<(WithSpan<Expr>, usize)>)
    requires
        p < ts@.len() <= usize::MAX,
        ts@[p as int].0 is Lambda,
    ensures
        expr_result(core_expr(tv(*ts), p as int), r, p as int, ts@.len() as int),
    decreases ts@.len() - p, 0int,
{
    let (xs, q) = parse_items(ts, p + 1, Kind::Type);
    let parameters = into_types(xs);
    if !(q < ts.len() && matches!(ts[q].0, Token::Arrow)) {
        return None;
    }
    let (b, e) = match parse_expr(ts, q + 1) {
        Some(v) => v,
        None => return None,
    };
    Some((node_at(ts, p, e, Expr::Function { parameters, body: Box::new(b) }), e))
}

/// An application: the function's type, its link name, then at least one
/// argument.
#[verifier::rlimit(40)]
fn expr_apply(ts: &Vec<(Token, Range<usize>)>, p: usize) -> (r: Option<(WithSpan<Expr>, usize)>)
    requires
        p < ts@.len() <= usize::MAX,
        ts@[p as int].0 is Apply,
    ensures
        expr_result(core_expr(tv(*ts), p as int), r, p as int, ts@.len() as int),
    decreases ts@.len() - p, 0int,
{
    let (f, q) = match parse_type(ts, p + 1) {
        Some(v) => v,
        None => return None,
    };
    let (link_name, l) = link_name_from(ts, q);
    let s = skip_in_at(ts, l);
    let (xs, e) = match parse_items_at_least_one(ts, s, Kind::Expr) {
        Some(v) => v,
        None => return None,
    };
    let arguments = into_exprs(xs);
    Some((node_at(ts, p, e, Expr::Apply { function: f, link_name, arguments }), e))
}

/// A reference: an application without arguments.
fn expr_reference(ts: &Vec<(Token, Range<usize>)>, p: usize) -> (r: Option<(WithSpan<Expr>, usize)>)
    requires
        p < ts@.len() <= usize::MAX,
        ts@[p as int].0 is Reference,
    ensures
        expr_result(core_expr(tv(*ts), p as int), r, p as int, ts@.len() as int),
    decreases ts@.len() - p, 0int,
{
    let (f, q) = match parse_type(ts, p + 1) {
        Some(v) => v,
        None => return None,
    };
    let (link_name, l) = link_name_from(ts, q);
    let arguments: Vec<WithSpan<Expr>> = Vec::new();
    proof {
        assert(crate::syntax::exprs_of(arguments) =~= seq![]);
    }
    Some((node_at(ts, p, l, Expr::Apply { function: f, link_name, arguments }), l))
}

/// A handle: the expression handled, then at least one handler.
#[verifier::rlimit(40)]
fn expr_handle(ts: &Vec<(Token, Range<usize>)>, p: usize) -> (r: Option<(WithSpan<Expr>, usize)>)
    requires
        p < ts@.len() <= usize::MAX,
        ts@[p as int].0 is Handle,
    ensures
        expr_result(core_expr(tv(*ts), p as int), r, p as int, ts@.len() as int),
    decreases ts@.len() - p, 0int,
{
    let (a, q) = match parse_expr(ts, p + 1) {
        Some(v) => v,
        None => return None,
    };
    let s = skip_in_at(ts, q);
    let (hs, e) = match parse_items_at_least_one(ts, s, Kind::Handler) {
        Some(v) => v,
        None => return None,
    };
    let ghost hv = items_view(hs@);
    let handlers = into_handlers(hs);
    let x = node_at(ts, p, e, Expr::Handle { expr: Box::new(a), handlers });
    proof {
        assert(crate::syntax::expr_of(x).value->handlers =~= as_handlers(hv));
    }
    Some((x, e))
}

/// A label, then the expression it is on.
fn expr_label(ts: &Vec<(Token, Range<usize>)>, p: usize) -> (r: Option<(WithSpan<Expr>, usize)>)
    requires
        p < ts@.len() <= usize::MAX,
        ts@[p as int].0 is Brand,
    ensures
        expr_result(core_expr(tv(*ts), p as int), r, p as int, ts@.len() as int),
    decreases ts@.len() - p, 0int,
{
    let label = match &ts[p].0 {
        Token::Brand(l) => l.clone(),
        _ => String::new(),
    };
    let (a, q) = match parse_expr(ts, p + 1) {
        Some(v) => v,
        None => return None,
    };
    Some((node_at(ts, p, q, Expr::Label { label, item: Box::new(a) }), q))
}

/// A new type: its name, the type it stands for, then the expression it is
/// known in.
fn expr_new_type(ts: &Vec<(Token, Range<usize>)>, p: usize) -> (r: Option<(WithSpan<Expr>, usize)>)
    requires
        p < ts@.len() <= usize::MAX,
        ts@[p as int].0 is Type,
    ensures
        expr_result(core_expr(tv(*ts), p as int), r, p as int, ts@.len() as int),
    decreases ts@.len() - p, 0int,
{
    if p + 1 >= ts.len() {
        return None;
    }
    let ident = match &ts[p + 1].0 {
        Token::Ident(i) => i.clone(),
        _ => return None,
    };
    let (t, q) = match parse_type(ts, p + 2) {
        Some(v) => v,
        None => return None,
    };
    let s = skip_in_at(ts, q);
    let (b, e) = match parse_expr(ts, s) {
        Some(v) => v,
        None => return None,
    };
    Some((node_at(ts, p, e, Expr::NewType { ident, ty: t, expr: Box::new(b) }), e))
}

/// A card: its identifier, its expression, then the next card if there is
/// one.
fn expr_card(ts: &Vec<(Token, Range<usize>)>, p: usize) -> (r: Option<(WithSpan<Expr>, usize)>)
    requires
        p < ts@.len() <= usize::MAX,
        ts@[p as int].0 is Card,
    ensures
        expr_result(core_expr(tv(*ts), p as int), r, p as int, ts@.len() as int),
    decreases ts@.len() - p, 0int,
{
    if p + 1 >= ts.len() {
        return None;
    }
    let uuid = match &ts[p + 1].0 {
        Token::Uuid(u) => *u,
        _ => return None,
    };
    let (a, q) = match parse_expr(ts, p + 2) {
        Some(v) => v,
        None => return None,
    };
    let s = skip_in_at(ts, q);
    match parse_expr(ts, s) {
        Some((n, e)) => Some((node_at(ts, p, e, Expr::Card { uuid, item: Box::new(a), next: Some(Box::new(n)) }), e)),
        None => Some((node_at(ts, p, s, Expr::Card { uuid, item: Box::new(a), next: None }), s)),
    }
}

/// The type at `p`, with a comment right after it kept on it.
fn parse_type(ts: &Vec<(Token, Range<usize>)>, p: usize) -> (r: Option<(WithSpan<Type>, usize)>)
    requires
        p <= ts@.len(),
    ensures
        type_result(ty(tv(*ts), p as int), r, p as int, ts@.len() as int),
    decreases ts@.len() - p, 2int,
{
    let (x, q) = match parse_core_type(ts, p) {
        Some(v) => v,
        None => return None,
    };
    if q < ts.len() {
        if let Token::Comment(text) = &ts[q].0 {
            let c = node_at(
                ts,
                p,
                q + 1,
                Type::Comment { position: CommentPosition::Suffix, text: text.clone(), item: Box::new(x) },
            );
            return Some((c, q + 1));
        }
    }
    Some((x, q))
}

/// The type at `p`, chosen by its first token.
fn parse_core_type(ts: &Vec<(Token, Range<usize>)>, p: usize) -> (r: Option<(WithSpan<Type>, usize)>)
    requires
        p <= ts@.len(),
    ensures
        type_result(core_type(tv(*ts), p as int), r, p as int, ts@.len() as int),
    decreases ts@.len() - p, 1int,
{
    if p >= ts.len() {
        return None;
    }
    match &ts[p].0 {
        Token::Infer => Some((node_at(ts, p, p + 1, Type::Infer), p + 1)),
        Token::This => Some((node_at(ts, p, p + 1, Type::This), p + 1)),
        Token::NumberType => Some((node_at(ts, p, p + 1, Type::Number), p + 1)),
        Token::StringType => Some((node_at(ts, p, p + 1, Type::String), p + 1)),
        Token::Comment(_) => type_prefix_comment(ts, p),
        Token::Trait => type_trait(ts, p),
        Token::Perform => type_effectful(ts, p),
        Token::Product => type_product_or_sum(ts, p),
        Token::Sum => type_product_or_sum(ts, p),
        Token::ArrayBegin => type_collection(ts, p),
        Token::SetBegin => type_collection(ts, p),
        Token::Lambda => type_function(ts, p),
        Token::Brand(_) => type_brand(ts, p),
        Token::Attribute => type_attribute(ts, p),
        Token::Ident(_) => type_variable(ts, p),
        Token::A => type_a(ts, p),
        Token::Let => type_let(ts, p),
        _ => None,
    }
}

/// A comment, then the type it stands before.
fn type_prefix_comment(ts: &Vec<(Token, Range<usize>)>, p: usize) -> (r: Option<(WithSpan<Type>, usize)>)
    requires
        p < ts@.len() <= usize::MAX,
        ts@[p as int].0 is Comment,
    ensures
        type_result(core_type(tv(*ts), p as int), r, p as int, ts@.len() as int),
    decreases ts@.len() - p, 0int,
{
    let text = match &ts[p].0 {
        Token::Comment(t) => t.clone(),
        _ => String::new(),
    };
    let (x, q) = match parse_type(ts, p + 1) {
        Some(v) => v,
        None => return None,
    };
    Some((node_at(ts, p, q, Type::Comment { position: CommentPosition::Prefix, text, item: Box::new(x) }), q))
}

/// A trait: at least one type.
fn type_trait(ts: &Vec<(Token, Range<usize>)>, p: usize) -> (r: Option<(WithSpan<Type>, usize)>)
    requires
        p < ts@.len() <= usize::MAX,
        ts@[p as int].0 is Trait,
    ensures
        type_result(core_type(tv(*ts), p as int), r, p as int, ts@.len() as int),
    decreases ts@.len() - p, 0int,
{
    let (xs, q) = match parse_items_at_least_one(ts, p + 1, Kind::Type) {
        Some(v) => v,
        None => return None,
    };
    let v = into_types(xs);
    Some((node_at(ts, p, q, Type::Trait(v)), q))
}

/// A type with the effects it has.
fn type_effectful(ts: &Vec<(Token, Range<usize>)>, p: usize) -> (r: Option<(WithSpan<Type>, usize)>)
    requires
        p < ts@.len() <= usize::MAX,
        ts@[p as int].0 is Perform,
    ensures
        type_result(core_type(tv(*ts), p as int), r, p as int, ts@.len() as int),
    decreases ts@.len() - p, 0int,
{
    let (t, q) = match parse_type(ts, p + 1) {
        Some(v) => v,
        None => return None,
    };
    let (e, f) = match parse_effect_expr(ts, q) {
        Some(v) => v,
        None => return None,
    };
    Some((node_at(ts, p, f, Type::Effectful { ty: Box::new(t), effects: e }), f))
}

/// A product or a sum of types.
fn type_product_or_sum(ts: &Vec<(Token, Range<usize>)>, p: usize) -> (r: Option<(WithSpan<Type>, usize)>)
    requires
        p < ts@.len() <= usize::MAX,
        ts@[p as int].0 is Product || ts@[p as int].0 is Sum,
    ensures
        type_result(core_type(tv(*ts), p as int), r, p as int, ts@.len() as int),
    decreases ts@.len() - p, 0int,
{
    let (xs, q) = parse_items_or_none(ts, p + 1, Kind::Type);
    let v = into_types(xs);
    if matches!(ts[p].0, Token::Product) {
        Some((node_at(ts, p, q, Type::Product(v)), q))
    } else {
        Some((node_at(ts, p, q, Type::Sum(v)), q))
    }
}

/// A vector or a set type, between its brackets.
fn type_collection(ts: &Vec<(Token, Range<usize>)>, p: usize) -> (r: Option<(WithSpan<Type>, usize)>)
    requires
        p < ts@.len() <= usize::MAX,
        ts@[p as int].0 is ArrayBegin || ts@[p as int].0 is SetBegin,
    ensures
        type_result(core_type(tv(*ts), p as int), r, p as int, ts@.len() as int),
    decreases ts@.len() - p, 0int,
{
    let (t, q) = match parse_type(ts, p + 1) {
        Some(v) => v,
        None => return None,
    };
    if matches!(ts[p].0, Token::ArrayBegin) {
        if q < ts.len() && matches!(ts[q].0, Token::ArrayEnd) {
            Some((node_at(ts, p, q + 1, Type::Vector(Box::new(t))), q + 1))
        } else {
            None
        }
    } else {
        if q < ts.len() && matches!(ts[q].0, Token::SetEnd) {
            Some((node_at(ts, p, q + 1, Type::SetOf(Box::new(t))), q + 1))
        } else {
            None
        }
    }
}

/// A function type: its parameter types, an arrow and its body.
fn type_function(ts: &Vec<(Token, Range<usize>)>, p: usize) -> (r: Option<(WithSpan<Type>, usize)>)
    requires
        p < ts@.len() <= usize::MAX,
        ts@[p as int].0 is Lambda,
    ensures
        type_result(core_type(tv(*ts), p as int), r, p as int, ts@.len() as int),
    decreases ts@.len() - p, 0int,
{
    let (xs, q) = parse_items(ts, p + 1, Kind::Type);
    let parameters = into_types(xs);
    if !(q < ts.len() && matches!(ts[q].0, Token::Arrow)) {
        return None;
    }
    let (b, e) = match parse_type(ts, q + 1) {
        Some(v) => v,
        None => return None,
    };
    Some((node_at(ts, p, e, Type::Function { parameters, body: Box::new(b) }), e))
}

/// A brand, then the type it is on.
fn type_brand(ts: &Vec<(Token, Range<usize>)>, p: usize) -> (r: Option<(WithSpan<Type>, usize)>)
    requires
        p < ts@.len() <= usize::MAX,
        ts@[p as int].0 is Brand,
    ensures
        type_result(core_type(tv(*ts), p as int), r, p as int, ts@.len() as int),
    decreases ts@.len() - p, 0int,
{
    let brand = match &ts[p].0 {
        Token::Brand(b) => b.clone(),
        _ => String::new(),
    };
    let (t, q) = match parse_type(ts, p + 1) {
        Some(v) => v,
        None => return None,
    };
    Some((node_at(ts, p, q, Type::Brand { brand, item: Box::new(t) }), q))
}

/// An attribute, then the type it is on.
fn type_attribute(ts: &Vec<(Token, Range<usize>)>, p: usize) -> (r: Option<(WithSpan<Type>, usize)>)
    requires
        p < ts@.len() <= usize::MAX,
        ts@[p as int].0 is Attribute,
    ensures
        type_result(core_type(tv(*ts), p as int), r, p as int, ts@.len() as int),
    decreases ts@.len() - p, 0int,
{
    let (a, q) = match parse_expr(ts, p + 1) {
        Some(v) => v,
        None => return None,
    };
    let s = skip_in_at(ts, q);
    let (t, e) = match parse_type(ts, s) {
        Some(v) => v,
        None => return None,
    };
    Some((node_at(ts, p, e, Type::Attribute { attr: Box::new(a), ty: Box::new(t) }), e))
}

/// A variable, with its bound if a type annotation follows.
fn type_variable(ts: &Vec<(Token, Range<usize>)>, p: usize) -> (r: Option<(WithSpan<Type>, usize)>)
    requires
        p < ts@.len() <= usize::MAX,
        ts@[p as int].0 is Ident,
    ensures
        type_result(core_type(tv(*ts), p as int), r, p as int, ts@.len() as int),
    decreases ts@.len() - p, 0int,
{
    let name = match &ts[p].0 {
        Token::Ident(n) => n.clone(),
        _ => String::new(),
    };
    let bound = if p + 1 < ts.len() && matches!(ts[p + 1].0, Token::TypeAnnotation) {
        parse_type(ts, p + 2)
    } else {
        None
    };
    match bound {
        Some((b, e)) => Some(
            (node_at(ts, p, e, Type::BoundedVariable { bound: Box::new(b), identifier: name }), e),
        ),
        None => Some((node_at(ts, p, p + 1, Type::Variable(name)), p + 1)),
    }
}

/// A variable written after its article.
fn type_a(ts: &Vec<(Token, Range<usize>)>, p: usize) -> (r: Option<(WithSpan<Type>, usize)>)
    requires
        p < ts@.len() <= usize::MAX,
        ts@[p as int].0 is A,
    ensures
        type_result(core_type(tv(*ts), p as int), r, p as int, ts@.len() as int),
    decreases ts@.len() - p, 0int,
{
    if p + 1 >= ts.len() {
        return None;
    }
    match &ts[p + 1].0 {
        Token::Ident(n) => Some((node_at(ts, p, p + 2, Type::Variable(n.clone())), p + 2)),
        _ => None,
    }
}

/// A type variable's definition, then the type it is known in.
fn type_let(ts: &Vec<(Token, Range<usize>)>, p: usize) -> (r: Option<(WithSpan<Type>, usize)>)
    requires
        p < ts@.len() <= usize::MAX,
        ts@[p as int].0 is Let,
    ensures
        type_result(core_type(tv(*ts), p as int), r, p as int, ts@.len() as int),
    decreases ts@.len() - p, 0int,
{
    if p + 1 >= ts.len() {
        return None;
    }
    let variable = match &ts[p + 1].0 {
        Token::Ident(n) => n.clone(),
        _ => return None,
    };
    let s = skip_in_at(ts, p + 2);
    let (b, e) = match parse_type(ts, s) {
        Some(v) => v,
        None => return None,
    };
    Some((node_at(ts, p, e, Type::Let { variable, body: Box::new(b) }), e))
}

/// The effect expression at `p`, chosen by its first token.
fn parse_effect_expr(ts: &Vec<(Token, Range<usize>)>, p: usize) -> (r: Option<(WithSpan<EffectExpr>, usize)>)
    requires
        p <= ts@.len(),
    ensures
        effect_result(effect_expr(tv(*ts), p as int), r, p as int, ts@.len() as int),
    decreases ts@.len() - p, 1int,
{
    if p >= ts.len() {
        return None;
    }
    match &ts[p].0 {
        Token::SetBegin => effect_set(ts, p),
        Token::Apply => effect_apply(ts, p),
        Token::Sum => effect_add(ts, p),
        Token::Minus => effect_sub(ts, p),
        _ => None,
    }
}

/// A set of effects.
fn effect_set(ts: &Vec<(Token, Range<usize>)>, p: usize) -> (r: Option<(WithSpan<EffectExpr>, usize)>)
    requires
        p < ts@.len() <= usize::MAX,
        ts@[p as int].0 is SetBegin,
    ensures
        effect_result(effect_expr(tv(*ts), p as int), r, p as int, ts@.len() as int),
    decreases ts@.len() - p, 0int,
{
    let (xs, q) = parse_items(ts, p + 1, Kind::Effect);
    let ghost ev = items_view(xs@);
    let v = into_effects(xs);
    if !(q < ts.len() && matches!(ts[q].0, Token::SetEnd)) {
        return None;
    }
    let x = node_at(ts, p, q + 1, EffectExpr::Effects(v));
    proof {
        assert(crate::syntax::effect_expr_of(x).value->Effects_0 =~= as_effects(ev));
    }
    Some((x, q + 1))
}

/// An effect function applied to types.
fn effect_apply(ts: &Vec<(Token, Range<usize>)>, p: usize) -> (r: Option<(WithSpan<EffectExpr>, usize)>)
    requires
        p < ts@.len() <= usize::MAX,
        ts@[p as int].0 is Apply,
    ensures
        effect_result(effect_expr(tv(*ts), p as int), r, p as int, ts@.len() as int),
    decreases ts@.len() - p, 0int,
{
    let (f, q) = match parse_type(ts, p + 1) {
        Some(v) => v,
        None => return None,
    };
    let s = skip_in_at(ts, q);
    let (xs, e) = parse_items_or_none(ts, s, Kind::Type);
    let arguments = into_types(xs);
    Some((node_at(ts, p, e, EffectExpr::Apply { function: Box::new(f), arguments }), e))
}

/// The union of effect expressions.
fn effect_add(ts: &Vec<(Token, Range<usize>)>, p: usize) -> (r: Option<(WithSpan<EffectExpr>, usize)>)
    requires
        p < ts@.len() <= usize::MAX,
        ts@[p as int].0 is Sum,
    ensures
        effect_result(effect_expr(tv(*ts), p as int), r, p as int, ts@.len() as int),
    decreases ts@.len() - p, 0int,
{
    let (xs, q) = parse_items_or_none(ts, p + 1, Kind::EffectExpr);
    let ghost ev = items_view(xs@);
    let v = into_effect_exprs(xs);
    let x = node_at(ts, p, q, EffectExpr::Add(v));
    proof {
        assert(crate::syntax::effect_expr_of(x).value->Add_0 =~= as_effect_exprs(ev));
    }
    Some((x, q))
}

/// One effect expression less another, separated by a comma.
fn effect_sub(ts: &Vec<(Token, Range<usize>)>, p: usize) -> (r: Option<(WithSpan<EffectExpr>, usize)>)
    requires
        p < ts@.len() <= usize::MAX,
        ts@[p as int].0 is Minus,
    ensures
        effect_result(effect_expr(tv(*ts), p as int), r, p as int, ts@.len() as int),
    decreases ts@.len() - p, 0int,
{
    let (m, q) = match parse_effect_expr(ts, p + 1) {
        Some(v) => v,
        None => return None,
    };
    if !(q < ts.len() && matches!(ts[q].0, Token::Comma)) {
        return None;
    }
    let (s, e) = match parse_effect_expr(ts, q + 1) {
        Some(v) => v,
        None => return None,
    };
    Some((node_at(ts, p, e, EffectExpr::Sub { minuend: Box::new(m), subtrahend: Box::new(s) }), e))
}


/// No comment follows the token at `q`.
pub open spec fn no_comment_at(ts: Tokens, q: int) -> bool {
    !(0 <= q < ts.len() && ts[q].0 is Comment)
}

/// A hole, a string or an integer that no divide and integer follow is an
/// expression of its one token, spanning it.
pub proof fn law_single_token_expressions(ts: Tokens, p: int)
    requires
        0 <= p < ts.len(),
        no_comment_at(ts, p + 1),
    ensures
        ts[p].0 is Hole ==> expr(ts, p) == Some((Spanned { span: span_of(ts, p, p + 1), value: SExpr::Hole }, p + 1)),
        ts[p].0 is Str ==> expr(ts, p) == Some(
            (Spanned { span: span_of(ts, p, p + 1), value: SExpr::Literal(SLiteral::String(ts[p].0->Str_0)) }, p + 1),
        ),
        ts[p].0 is Int && !is_tok(ts, p + 1, SpecToken::Divide) ==> expr(ts, p) == Some(
            (
                Spanned {
                    span: span_of(ts, p, p + 1),
                    value: SExpr::Literal(SLiteral::Integer(ts[p].0->Int_0 as i64)),
                },
                p + 1,
            ),
        ),
{
}

/// An integer, a divide and an integer make a rational of the three tokens.
pub proof fn law_rational(ts: Tokens, p: int)
    requires
        0 <= p,
        p + 2 < ts.len(),
        ts[p].0 is Int,
        ts[p + 1].0 == SpecToken::Divide,
        ts[p + 2].0 is Int,
        no_comment_at(ts, p + 3),
    ensures
        expr(ts, p) == Some(
            (
                Spanned {
                    span: span_of(ts, p, p + 3),
                    value: SExpr::Literal(SLiteral::Rational(ts[p].0->Int_0 as i64, ts[p + 2].0->Int_0 as i64)),
                },
                p + 3,
            ),
        ),
{
}

/// A comment right after an expression is kept on it as a suffix, and the
/// whole spans both.
pub proof fn law_suffix_comment(ts: Tokens, p: int)
    requires
        core_expr(ts, p) matches Some((x, q)) && 0 <= q < ts.len() && ts[q].0 is Comment,
    ensures
        match core_expr(ts, p) {
            Some((x, q)) => expr(ts, p) == Some(
                (
                    Spanned {
                        span: span_of(ts, p, q + 1),
                        value: SExpr::Comment {
                            position: CommentPosition::Suffix,
                            text: ts[q].0->Comment_0,
                            item: Box::new(x),
                        },
                    },
                    q + 1,
                ),
            ),
            None => true,
        },
{
}

/// The basic types are types of their one token, spanning it.
pub proof fn law_single_token_types(ts: Tokens, p: int)
    requires
        0 <= p < ts.len(),
        no_comment_at(ts, p + 1),
    ensures
        ts[p].0 == SpecToken::NumberType ==> ty(ts, p) == Some((Spanned { span: span_of(ts, p, p + 1), value: SType::Number }, p + 1)),
        ts[p].0 == SpecToken::StringType ==> ty(ts, p) == Some((Spanned { span: span_of(ts, p, p + 1), value: SType::String }, p + 1)),
        ts[p].0 == SpecToken::Infer ==> ty(ts, p) == Some((Spanned { span: span_of(ts, p, p + 1), value: SType::Infer }, p + 1)),
        ts[p].0 == SpecToken::This ==> ty(ts, p) == Some((Spanned { span: span_of(ts, p, p + 1), value: SType::This }, p + 1)),
{
}

/// A parse that did not take the whole input: `position` is the first token
/// left over after the expression, or 0 where no expression starts.
#[derive(Debug, Clone, Copy, PartialEq, Eq, Structural)]
pub struct ParserError {
    pub position: usize,
}

/// The expression that the whole of `tokens` makes.
pub fn parse(tokens: Vec<(Token, Range<usize>)>) -> (r: Result<WithSpan<Expr>, ParserError>)
    ensures
        match r {
            Ok(x) => expr(tv(tokens), 0) == Some((crate::syntax::expr_of(x), tokens@.len() as int)),
            Err(e) => match expr(tv(tokens), 0) {
                Some((_, q)) => q < tokens@.len() && e.position == q,
                None => e.position == 0,
            },
        },
{
    match parse_expr(&tokens, 0) {
        Some((x, q)) => if q == tokens.len() {
            Ok(x)
        } else {
            Err(ParserError { position: q })
        },
        None => Err(ParserError { position: 0 }),
    }
}

} // verus!
