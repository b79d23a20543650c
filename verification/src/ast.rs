//! The syntax tree that parsing produces: expressions and types, each node
//! with its identifier and its span in the source.
use vstd::prelude::*;

use crate::amir::LinkName;
use crate::dson::Dson;

verus! {

/// A node's place in the source: the characters from `start` to `end`.
#[derive(Debug, Clone, Copy, PartialEq, Eq, Structural)]
pub struct Span {
    pub start: usize,
    pub end: usize,
}

/// A node with its identifier and its span.
#[derive(Debug)]
pub struct WithSpan<T> {
    pub id: u128,
    pub value: T,
    pub span: Span,
}

/// A literal; a real number is held by its bits.
#[derive(Debug)]
pub enum Literal {
    String(String),
    Integer(i64),
    Rational(i64, i64),
    Real(u64),
}

/// A handler of one effect.
#[derive(Debug)]
pub struct Handler {
    pub effect: WithSpan<Effect>,
    pub handler: WithSpan<Expr>,
}

/// An entry of a map expression.
#[derive(Debug)]
pub struct MapElem {
    pub key: WithSpan<Expr>,
    pub value: WithSpan<Expr>,
}

/// A case of a match.
#[derive(Debug)]
pub struct MatchCase {
    pub ty: WithSpan<Type>,
    pub expr: WithSpan<Expr>,
}

/// An expression.
#[derive(Debug)]
pub enum Expr {
    Literal(Literal),
    Hole,
    Do { stmt: Box<WithSpan<Expr>>, expr: Box<WithSpan<Expr>> },
    Let { definition: Box<WithSpan<Expr>>, body: Box<WithSpan<Expr>> },
    Perform { input: Box<WithSpan<Expr>>, output: WithSpan<Type> },
    Continue { input: Box<WithSpan<Expr>>, output: WithSpan<Type> },
    Handle { handlers: Vec<Handler>, expr: Box<WithSpan<Expr>> },
    Apply { function: WithSpan<Type>, link_name: LinkName, arguments: Vec<WithSpan<Expr>> },
    Product(Vec<WithSpan<Expr>>),
    Typed { ty: WithSpan<Type>, item: Box<WithSpan<Expr>> },
    Function { parameter: WithSpan<Type>, body: Box<WithSpan<Expr>> },
    Vector(Vec<WithSpan<Expr>>),
    MapOf(Vec<MapElem>),
    Attributed { attr: Dson, item: Box<WithSpan<Expr>> },
    Brand { brand: Dson, item: Box<WithSpan<Expr>> },
    Match { of: Box<WithSpan<Expr>>, cases: Vec<MatchCase> },
    Label { label: Dson, item: Box<WithSpan<Expr>> },
    NewType { ident: String, ty: WithSpan<Type>, expr: Box<WithSpan<Expr>> },
    Comment { text: String, item: Box<WithSpan<Expr>> },
    Card { id: u128, item: Box<WithSpan<Expr>>, next: Box<WithSpan<Expr>> },
}

/// A function type: one parameter and a body.
#[derive(Debug)]
pub struct Function {
    pub parameter: WithSpan<Type>,
    pub body: WithSpan<Type>,
}

/// An effect: performing `input` yields `output`.
#[derive(Debug)]
pub struct Effect {
    pub input: WithSpan<Type>,
    pub output: WithSpan<Type>,
}

/// An expression over sets of effects.
#[derive(Debug)]
pub enum EffectExpr {
    Effects(Vec<WithSpan<Effect>>),
    Add(Vec<WithSpan<EffectExpr>>),
    Sub { minuend: Box<WithSpan<EffectExpr>>, subtrahend: Box<WithSpan<EffectExpr>> },
    Apply { function: Box<WithSpan<Type>>, arguments: Vec<WithSpan<Type>> },
}

/// A type.
#[derive(Debug)]
pub enum Type {
    Real,
    Rational,
    Integer,
    String,
    Trait(Vec<WithSpan<Function>>),
    Effectful { ty: Box<WithSpan<Type>>, effects: WithSpan<EffectExpr> },
    Infer,
    This,
    Variable(String),
    Product(Vec<WithSpan<Type>>),
    Sum(Vec<WithSpan<Type>>),
    Function(Box<Function>),
    Vector(Box<WithSpan<Type>>),
    MapOf { key: Box<WithSpan<Type>>, value: Box<WithSpan<Type>> },
    Let { variable: String, definition: Box<WithSpan<Type>>, body: Box<WithSpan<Type>> },
    Labeled { brand: Dson, item: Box<WithSpan<Type>> },
    Attributed { attr: Dson, ty: Box<WithSpan<Type>> },
    Comment { text: String, item: Box<WithSpan<Type>> },
    Forall { variable: String, bound: Option<Box<WithSpan<Type>>>, body: Box<WithSpan<Type>> },
    Exists { variable: String, bound: Option<Box<WithSpan<Type>>>, body: Box<WithSpan<Type>> },
}

} // verus!
