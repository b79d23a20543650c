//! The syntax tree that the parser builds from tokens: expressions, types
//! and effect expressions, each node with a random identifier and the span
//! of its tokens in the source.
use vstd::prelude::*;

use crate::amir::LinkName;
use crate::ast::{Span, WithSpan};

verus! {

/// Where a comment stands: before or after what it comments.
#[derive(Debug, Clone, Copy, PartialEq, Eq, Structural)]
pub enum CommentPosition {
    Prefix,
    Suffix,
}

/// A literal.
#[derive(Debug)]
pub enum Literal {
    Integer(i64),
    Rational(i64, i64),
    String(String),
}

/// A handler of one effect: its input and output types and the handler.
#[derive(Debug)]
pub struct Handler {
    pub input: WithSpan<Type>,
    pub output: WithSpan<Type>,
    pub handler: WithSpan<Expr>,
}

/// A case of a match.
#[derive(Debug)]
pub struct MatchCase {
    pub ty: WithSpan<Type>,
    pub expr: WithSpan<Expr>,
}

/// An expression.
#[derive(Debug)]
pub enum Expr {
    Literal(Literal),
    Hole,
    Let { ty: WithSpan<Type>, definition: Box<WithSpan<Expr>>, body: Box<WithSpan<Expr>> },
    Perform { input: Box<WithSpan<Expr>>, output: WithSpan<Type> },
    Continue { input: Box<WithSpan<Expr>>, output: Option<WithSpan<Type>> },
    Handle { expr: Box<WithSpan<Expr>>, handlers: Vec<Handler> },
    Apply { function: WithSpan<Type>, link_name: LinkName, arguments: Vec<WithSpan<Expr>> },
    Product(Vec<WithSpan<Expr>>),
    Function { parameters: Vec<WithSpan<Type>>, body: Box<WithSpan<Expr>> },
    Vector(Vec<WithSpan<Expr>>),
    SetOf(Vec<WithSpan<Expr>>),
    Typed { ty: WithSpan<Type>, item: Box<WithSpan<Expr>> },
    Attribute { attr: Box<WithSpan<Expr>>, item: Box<WithSpan<Expr>> },
    Brand { brands: Vec<String>, item: Box<WithSpan<Expr>> },
    Match { of: Box<WithSpan<Expr>>, cases: Vec<MatchCase> },
    Label { label: String, item: Box<WithSpan<Expr>> },
    NewType { ident: String, ty: WithSpan<Type>, expr: Box<WithSpan<Expr>> },
    Comment { position: CommentPosition, text: String, item: Box<WithSpan<Expr>> },
    Card { uuid: u128, item: Box<WithSpan<Expr>>, next: Option<Box<WithSpan<Expr>>> },
}

/// An effect: performing `input` yields `output`.
#[derive(Debug)]
pub struct Effect {
    pub input: WithSpan<Type>,
    pub output: WithSpan<Type>,
}

/// An expression over sets of effects.
#[derive(Debug)]
pub enum EffectExpr {
    Effects(Vec<WithSpan<Effect>>),
    Apply { function: Box<WithSpan<Type>>, arguments: Vec<WithSpan<Type>> },
    Add(Vec<WithSpan<EffectExpr>>),
    Sub { minuend: Box<WithSpan<EffectExpr>>, subtrahend: Box<WithSpan<EffectExpr>> },
}

/// A type.
#[derive(Debug)]
pub enum Type {
    Number,
    String,
    Trait(Vec<WithSpan<Type>>),
    Effectful { ty: Box<WithSpan<Type>>, effects: WithSpan<EffectExpr> },
    Infer,
    This,
    Product(Vec<WithSpan<Type>>),
    Sum(Vec<WithSpan<Type>>),
    Vector(Box<WithSpan<Type>>),
    SetOf(Box<WithSpan<Type>>),
    Function { parameters: Vec<WithSpan<Type>>, body: Box<WithSpan<Type>> },
    Brand { brand: String, item: Box<WithSpan<Type>> },
    Attribute { attr: Box<WithSpan<Expr>>, ty: Box<WithSpan<Type>> },
    BoundedVariable { bound: Box<WithSpan<Type>>, identifier: String },
    Variable(String),
    Let { variable: String, body: Box<WithSpan<Type>> },
    Comment { position: CommentPosition, text: String, item: Box<WithSpan<Type>> },
}

/// Mathematical model of a node: its span and its value; the identifier is
/// random and not part of it.
pub struct Spanned<T> {
    pub span: Span,
    pub value: T,
}

/// Mathematical model of [`Literal`].
pub enum SLiteral {
    Integer(i64),
    Rational(i64, i64),
    String(Seq<char>),
}

/// Mathematical model of [`Expr`].
pub enum SExpr {
    Literal(SLiteral),
    Hole,
    Let { ty: Spanned<SType>, definition: Box<Spanned<SExpr>>, body: Box<Spanned<SExpr>> },
    Perform { input: Box<Spanned<SExpr>>, output: Spanned<SType> },
    Continue { input: Box<Spanned<SExpr>>, output: Option<Spanned<SType>> },
    /// The handlers: each one's input and output types and the handler.
    Handle { expr: Box<Spanned<SExpr>>, handlers: Seq<(Spanned<SType>, Spanned<SType>, Spanned<SExpr>)> },
    Apply { function: Spanned<SType>, link_name: LinkName, arguments: Seq<Spanned<SExpr>> },
    Product(Seq<Spanned<SExpr>>),
    Function { parameters: Seq<Spanned<SType>>, body: Box<Spanned<SExpr>> },
    Vector(Seq<Spanned<SExpr>>),
    SetOf(Seq<Spanned<SExpr>>),
    Typed { ty: Spanned<SType>, item: Box<Spanned<SExpr>> },
    Attribute { attr: Box<Spanned<SExpr>>, item: Box<Spanned<SExpr>> },
    Brand { brands: Seq<Seq<char>>, item: Box<Spanned<SExpr>> },
    Match { of: Box<Spanned<SExpr>>, cases: Seq<(Spanned<SType>, Spanned<SExpr>)> },
    Label { label: Seq<char>, item: Box<Spanned<SExpr>> },
    NewType { ident: Seq<char>, ty: Spanned<SType>, expr: Box<Spanned<SExpr>> },
    Comment { position: CommentPosition, text: Seq<char>, item: Box<Spanned<SExpr>> },
    Card { uuid: u128, item: Box<Spanned<SExpr>>, next: Option<Box<Spanned<SExpr>>> },
}

/// Mathematical model of [`EffectExpr`]; an effect is its input and output.
pub enum SEffectExpr {
    Effects(Seq<Spanned<(Spanned<SType>, Spanned<SType>)>>),
    Apply { function: Box<Spanned<SType>>, arguments: Seq<Spanned<SType>> },
    Add(Seq<Spanned<SEffectExpr>>),
    Sub { minuend: Box<Spanned<SEffectExpr>>, subtrahend: Box<Spanned<SEffectExpr>> },
}

/// Mathematical model of [`Type`].
pub enum SType {
    Number,
    String,
    Trait(Seq<Spanned<SType>>),
    Effectful { ty: Box<Spanned<SType>>, effects: Spanned<SEffectExpr> },
    Infer,
    This,
    Product(Seq<Spanned<SType>>),
    Sum(Seq<Spanned<SType>>),
    Vector(Box<Spanned<SType>>),
    SetOf(Box<Spanned<SType>>),
    Function { parameters: Seq<Spanned<SType>>, body: Box<Spanned<SType>> },
    Brand { brand: Seq<char>, item: Box<Spanned<SType>> },
    Attribute { attr: Box<Spanned<SExpr>>, ty: Box<Spanned<SType>> },
    BoundedVariable { bound: Box<Spanned<SType>>, identifier: Seq<char> },
    Variable(Seq<char>),
    Let { variable: Seq<char>, body: Box<Spanned<SType>> },
    Comment { position: CommentPosition, text: Seq<char>, item: Box<Spanned<SType>> },
}

pub open spec fn no_span() -> Span {
    Span { start: 0, end: 0 }
}

pub open spec fn type_of(t: WithSpan<Type>) -> Spanned<SType>
    decreases t, 1nat,
{
    Spanned { span: t.span, value: type_view(t.value) }
}

pub open spec fn types_of(v: Vec<WithSpan<Type>>) -> Seq<Spanned<SType>>
    decreases v, 0nat,
{
    Seq::new(
        v@.len(),
        |i: int| if 0 <= i < v@.len() { type_of(v@[i]) } else { Spanned { span: no_span(), value: SType::Infer } },
    )
}

pub open spec fn expr_of(e: WithSpan<Expr>) -> Spanned<SExpr>
    decreases e, 1nat,
{
    Spanned { span: e.span, value: expr_view(e.value) }
}

pub open spec fn exprs_of(v: Vec<WithSpan<Expr>>) -> Seq<Spanned<SExpr>>
    decreases v, 0nat,
{
    Seq::new(
        v@.len(),
        |i: int| if 0 <= i < v@.len() { expr_of(v@[i]) } else { Spanned { span: no_span(), value: SExpr::Hole } },
    )
}

pub open spec fn effect_expr_of(e: WithSpan<EffectExpr>) -> Spanned<SEffectExpr>
    decreases e, 1nat,
{
    Spanned { span: e.span, value: effect_expr_view(e.value) }
}

pub open spec fn effect_of(e: WithSpan<Effect>) -> Spanned<(Spanned<SType>, Spanned<SType>)>
    decreases e, 1nat,
{
    Spanned { span: e.span, value: (type_of(e.value.input), type_of(e.value.output)) }
}

pub open spec fn literal_view(l: Literal) -> SLiteral {
    match l {
        Literal::Integer(i) => SLiteral::Integer(i),
        Literal::Rational(a, b) => SLiteral::Rational(a, b),
        Literal::String(s) => SLiteral::String(s@),
    }
}

pub open spec fn effect_expr_view(e: EffectExpr) -> SEffectExpr
    decreases e, 0nat,
{
    match e {
        EffectExpr::Effects(v) => SEffectExpr::Effects(
            Seq::new(
                v@.len(),
                |i: int|
                    if 0 <= i < v@.len() {
                        effect_of(v@[i])
                    } else {
                        Spanned {
                            span: no_span(),
                            value: (
                                Spanned { span: no_span(), value: SType::Infer },
                                Spanned { span: no_span(), value: SType::Infer },
                            ),
                        }
                    },
            ),
        ),
        EffectExpr::Apply { function, arguments } => SEffectExpr::Apply {
            function: Box::new(type_of(*function)),
            arguments: types_of(arguments),
        },
        EffectExpr::Add(v) => SEffectExpr::Add(
            Seq::new(
                v@.len(),
                |i: int|
                    if 0 <= i < v@.len() {
                        effect_expr_of(v@[i])
                    } else {
                        Spanned { span: no_span(), value: SEffectExpr::Add(seq![]) }
                    },
            ),
        ),
        EffectExpr::Sub { minuend, subtrahend } => SEffectExpr::Sub {
            minuend: Box::new(effect_expr_of(*minuend)),
            subtrahend: Box::new(effect_expr_of(*subtrahend)),
        },
    }
}

pub open spec fn type_view(t: Type) -> SType
    decreases t, 0nat,
{
    match t {
        Type::Number => SType::Number,
        Type::String => SType::String,
        Type::Trait(v) => SType::Trait(types_of(v)),
        Type::Effectful { ty, effects } => SType::Effectful {
            ty: Box::new(type_of(*ty)),
            effects: effect_expr_of(effects),
        },
        Type::Infer => SType::Infer,
        Type::This => SType::This,
        Type::Product(v) => SType::Product(types_of(v)),
        Type::Sum(v) => SType::Sum(types_of(v)),
        Type::Vector(x) => SType::Vector(Box::new(type_of(*x))),
        Type::SetOf(x) => SType::SetOf(Box::new(type_of(*x))),
        Type::Function { parameters, body } => SType::Function {
            parameters: types_of(parameters),
            body: Box::new(type_of(*body)),
        },
        Type::Brand { brand, item } => SType::Brand { brand: brand@, item: Box::new(type_of(*item)) },
        Type::Attribute { attr, ty } => SType::Attribute { attr: Box::new(expr_of(*attr)), ty: Box::new(type_of(*ty)) },
        Type::BoundedVariable { bound, identifier } => SType::BoundedVariable {
            bound: Box::new(type_of(*bound)),
            identifier: identifier@,
        },
        Type::Variable(s) => SType::Variable(s@),
        Type::Let { variable, body } => SType::Let { variable: variable@, body: Box::new(type_of(*body)) },
        Type::Comment { position, text, item } => SType::Comment {
            position,
            text: text@,
            item: Box::new(type_of(*item)),
        },
    }
}

pub open spec fn expr_view(e: Expr) -> SExpr
    decreases e, 0nat,
{
    match e {
        Expr::Literal(l) => SExpr::Literal(literal_view(l)),
        Expr::Hole => SExpr::Hole,
        Expr::Let { ty, definition, body } => SExpr::Let {
            ty: type_of(ty),
            definition: Box::new(expr_of(*definition)),
            body: Box::new(expr_of(*body)),
        },
        Expr::Perform { input, output } => SExpr::Perform { input: Box::new(expr_of(*input)), output: type_of(output) },
        Expr::Continue { input, output } => SExpr::Continue {
            input: Box::new(expr_of(*input)),
            output: match output {
                Some(o) => Some(type_of(o)),
                None => None,
            },
        },
        Expr::Handle { expr, handlers } => SExpr::Handle {
            expr: Box::new(expr_of(*expr)),
            handlers: Seq::new(
                handlers@.len(),
                |i: int|
                    if 0 <= i < handlers@.len() {
                        (type_of(handlers@[i].input), type_of(handlers@[i].output), expr_of(handlers@[i].handler))
                    } else {
                        (
                            Spanned { span: no_span(), value: SType::Infer },
                            Spanned { span: no_span(), value: SType::Infer },
                            Spanned { span: no_span(), value: SExpr::Hole },
                        )
                    },
            ),
        },
        Expr::Apply { function, link_name, arguments } => SExpr::Apply {
            function: type_of(function),
            link_name,
            arguments: exprs_of(arguments),
        },
        Expr::Product(v) => SExpr::Product(exprs_of(v)),
        Expr::Function { parameters, body } => SExpr::Function {
            parameters: types_of(parameters),
            body: Box::new(expr_of(*body)),
        },
        Expr::Vector(v) => SExpr::Vector(exprs_of(v)),
        Expr::SetOf(v) => SExpr::SetOf(exprs_of(v)),
        Expr::Typed { ty, item } => SExpr::Typed { ty: type_of(ty), item: Box::new(expr_of(*item)) },
        Expr::Attribute { attr, item } => SExpr::Attribute {
            attr: Box::new(expr_of(*attr)),
            item: Box::new(expr_of(*item)),
        },
        Expr::Brand { brands, item } => SExpr::Brand {
            brands: Seq::new(brands@.len(), |i: int| brands@[i]@),
            item: Box::new(expr_of(*item)),
        },
        Expr::Match { of, cases } => SExpr::Match {
            of: Box::new(expr_of(*of)),
            cases: Seq::new(
                cases@.len(),
                |i: int|
                    if 0 <= i < cases@.len() {
                        (type_of(cases@[i].ty), expr_of(cases@[i].expr))
                    } else {
                        (Spanned { span: no_span(), value: SType::Infer }, Spanned { span: no_span(), value: SExpr::Hole })
                    },
            ),
        },
        Expr::Label { label, item } => SExpr::Label { label: label@, item: Box::new(expr_of(*item)) },
        Expr::NewType { ident, ty, expr } => SExpr::NewType {
            ident: ident@,
            ty: type_of(ty),
            expr: Box::new(expr_of(*expr)),
        },
        Expr::Comment { position, text, item } => SExpr::Comment {
            position,
            text: text@,
            item: Box::new(expr_of(*item)),
        },
        Expr::Card { uuid, item, next } => SExpr::Card {
            uuid,
            item: Box::new(expr_of(*item)),
            next: match next {
                Some(n) => Some(Box::new(expr_of(*n))),
                None => None,
            },
        },
    }
}

} // verus!
