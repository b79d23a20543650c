//! Typed expressions, as far as the conversion to data reads them: literals,
//! products, vectors, maps and labels in full, and of the other forms only
//! which form they are.
use vstd::prelude::*;

use crate::dson::{Dson, SpecDson};

verus! {

/// A literal; a floating-point number is held by its bits.
#[derive(Debug)]
pub enum Literal {
    Int(i64),
    Rational(i64, i64),
    Float(u64),
    String(String),
}

/// A typed expression.
#[derive(Debug)]
pub struct TypedHir {
    /// The identifier of the expression's node.
    pub id: u128,
    /// The type inferred for it.
    pub ty: crate::types::Type,
    pub expr: Expr,
}

/// An entry of a map expression.
#[derive(Debug)]
pub struct MapElem {
    pub key: TypedHir,
    pub value: TypedHir,
}

/// The forms of typed expressions.
#[derive(Debug)]
pub enum Expr {
    Literal(Literal),
    Do,
    Let,
    Perform,
    Handle,
    Apply,
    Product(Vec<TypedHir>),
    Match,
    Function,
    Vector(Vec<TypedHir>),
    MapOf(Vec<MapElem>),
    Label { label: Dson, item: Box<TypedHir> },
}

/// Mathematical model of [`Literal`].
pub enum SpecLiteral {
    Int(i64),
    Rational(i64, i64),
    Float(u64),
    String(Seq<char>),
}

/// Mathematical model of [`Expr`], standing for a [`TypedHir`] too.
pub enum SpecExpr {
    Literal(SpecLiteral),
    Do,
    Let,
    Perform,
    Handle,
    Apply,
    Product(Seq<SpecExpr>),
    Match,
    Function,
    Vector(Seq<SpecExpr>),
    MapOf(Seq<(SpecExpr, SpecExpr)>),
    Label { label: SpecDson, item: Box<SpecExpr> },
}

pub open spec fn literal_view(l: Literal) -> SpecLiteral {
    match l {
        Literal::Int(i) => SpecLiteral::Int(i),
        Literal::Rational(a, b) => SpecLiteral::Rational(a, b),
        Literal::Float(f) => SpecLiteral::Float(f),
        Literal::String(s) => SpecLiteral::String(s@),
    }
}

pub open spec fn hir_view(t: TypedHir) -> SpecExpr
    decreases t,
{
    match t.expr {
        Expr::Literal(l) => SpecExpr::Literal(literal_view(l)),
        Expr::Do => SpecExpr::Do,
        Expr::Let => SpecExpr::Let,
        Expr::Perform => SpecExpr::Perform,
        Expr::Handle => SpecExpr::Handle,
        Expr::Apply => SpecExpr::Apply,
        Expr::Product(v) => SpecExpr::Product(
            Seq::new(v@.len(), |i: int| if 0 <= i < v@.len() { hir_view(v@[i]) } else { SpecExpr::Do }),
        ),
        Expr::Match => SpecExpr::Match,
        Expr::Function => SpecExpr::Function,
        Expr::Vector(v) => SpecExpr::Vector(
            Seq::new(v@.len(), |i: int| if 0 <= i < v@.len() { hir_view(v@[i]) } else { SpecExpr::Do }),
        ),
        Expr::MapOf(v) => SpecExpr::MapOf(
            Seq::new(
                v@.len(),
                |i: int| if 0 <= i < v@.len() { (hir_view(v@[i].key), hir_view(v@[i].value)) } else { (SpecExpr::Do, SpecExpr::Do) },
            ),
        ),
        Expr::Label { label, item } => SpecExpr::Label { label: label@, item: Box::new(hir_view(*item)) },
    }
}

impl View for TypedHir {
    type V = SpecExpr;

    open spec fn view(&self) -> SpecExpr {
        hir_view(*self)
    }
}

} // verus!
