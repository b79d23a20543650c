//! The high-level representation that the syntax tree becomes: expressions
//! and types, each node with its metadata (identifier, attributes, span).
use vstd::prelude::*;

use crate::amir::LinkName;
use crate::ast::Span;
use crate::dson::{Dson, SpecDson};
use crate::sorted::views;

verus! {

/// A node's metadata: its identifier, its attributes and, for a node that
/// stands for a place in the source, its span.
#[derive(Debug)]
pub struct Meta {
    pub id: u128,
    pub attrs: Vec<Dson>,
    pub span: Option<Span>,
}

/// A node with its metadata.
#[derive(Debug)]
pub struct WithMeta<T> {
    pub meta: Meta,
    pub value: T,
}

/// A literal; a real number is held by its bits.
#[derive(Debug)]
pub enum Literal {
    String(String),
    Integer(i64),
    Rational(i64, i64),
    Real(u64),
}

/// A handler of one effect.
#[derive(Debug)]
pub struct Handler {
    pub effect: Effect,
    pub handler: WithMeta<Expr>,
}

/// An entry of a map expression.
#[derive(Debug)]
pub struct MapElem {
    pub key: WithMeta<Expr>,
    pub value: WithMeta<Expr>,
}

/// A case of a match.
#[derive(Debug)]
pub struct MatchCase {
    pub ty: WithMeta<Type>,
    pub expr: WithMeta<Expr>,
}

/// An expression.
#[derive(Debug)]
pub enum Expr {
    Literal(Literal),
    Do { stmt: Box<WithMeta<Expr>>, expr: Box<WithMeta<Expr>> },
    Let { definition: Box<WithMeta<Expr>>, expr: Box<WithMeta<Expr>> },
    Perform { input: Box<WithMeta<Expr>>, output: WithMeta<Type> },
    Continue { input: Box<WithMeta<Expr>>, output: WithMeta<Type> },
    Handle { handlers: Vec<Handler>, expr: Box<WithMeta<Expr>> },
    Apply { function: WithMeta<Type>, link_name: LinkName, arguments: Vec<WithMeta<Expr>> },
    Product(Vec<WithMeta<Expr>>),
    Typed { ty: WithMeta<Type>, item: Box<WithMeta<Expr>> },
    Function { parameter: WithMeta<Type>, body: Box<WithMeta<Expr>> },
    Vector(Vec<WithMeta<Expr>>),
    MapOf(Vec<MapElem>),
    Match { of: Box<WithMeta<Expr>>, cases: Vec<MatchCase> },
    Label { label: Dson, item: Box<WithMeta<Expr>> },
    Brand { brand: Dson, item: Box<WithMeta<Expr>> },
}

/// A function type: one parameter and a body.
#[derive(Debug)]
pub struct Function {
    pub parameter: WithMeta<Type>,
    pub body: WithMeta<Type>,
}

/// An effect: performing `input` yields `output`.
#[derive(Debug)]
pub struct Effect {
    pub input: WithMeta<Type>,
    pub output: WithMeta<Type>,
}

/// An expression over sets of effects.
#[derive(Debug)]
pub enum EffectExpr {
    Effects(Vec<WithMeta<Effect>>),
    Add(Vec<WithMeta<EffectExpr>>),
    Sub { minuend: Box<WithMeta<EffectExpr>>, subtrahend: Box<WithMeta<EffectExpr>> },
    Apply { function: Box<WithMeta<Type>>, arguments: Vec<WithMeta<Type>> },
}

/// A type.
#[derive(Debug)]
pub enum Type {
    Real,
    Rational,
    Integer,
    String,
    Trait(Vec<WithMeta<Function>>),
    Effectful { ty: Box<WithMeta<Type>>, effects: WithMeta<EffectExpr> },
    Infer,
    This,
    Variable(String),
    Product(Vec<WithMeta<Type>>),
    Sum(Vec<WithMeta<Type>>),
    Function(Box<Function>),
    Vector(Box<WithMeta<Type>>),
    MapOf { key: Box<WithMeta<Type>>, value: Box<WithMeta<Type>> },
    Let { variable: String, definition: Box<WithMeta<Type>>, body: Box<WithMeta<Type>> },
    Brand { brand: Dson, item: Box<WithMeta<Type>> },
    Label { label: Dson, item: Box<WithMeta<Type>> },
    Forall { variable: String, bound: Option<Box<WithMeta<Type>>>, body: Box<WithMeta<Type>> },
    Exists { variable: String, bound: Option<Box<WithMeta<Type>>>, body: Box<WithMeta<Type>> },
}

/// A card: its identifier and its expression.
#[derive(Debug)]
pub struct Card {
    pub id: u128,
    pub hir: WithMeta<Expr>,
}

/// The cards of a file and the expression that follows them.
#[derive(Debug)]
pub struct Cards {
    pub cards: Vec<Card>,
    pub file: WithMeta<Expr>,
}

/// Mathematical model of [`Meta`]. A node that stands for no place in the
/// source gets a random identifier, which is not part of its model.
pub struct SpecMeta {
    pub id: u128,
    pub attrs: Seq<SpecDson>,
    pub span: Option<Span>,
}

/// Mathematical model of [`WithMeta`].
pub struct Node<T> {
    pub meta: SpecMeta,
    pub value: T,
}

/// Mathematical model of [`Literal`].
pub enum SpecLiteral {
    String(Seq<char>),
    Integer(i64),
    Rational(i64, i64),
    Real(u64),
}

/// Mathematical model of [`Expr`].
pub enum SpecExpr {
    Literal(SpecLiteral),
    Do { stmt: Box<Node<SpecExpr>>, expr: Box<Node<SpecExpr>> },
    Let { definition: Box<Node<SpecExpr>>, expr: Box<Node<SpecExpr>> },
    Perform { input: Box<Node<SpecExpr>>, output: Node<SpecType> },
    Continue { input: Box<Node<SpecExpr>>, output: Node<SpecType> },
    /// Each handler: the effect's input and output types, and the handler.
    Handle { handlers: Seq<(Node<SpecType>, Node<SpecType>, Node<SpecExpr>)>, expr: Box<Node<SpecExpr>> },
    Apply { function: Node<SpecType>, link_name: LinkName, arguments: Seq<Node<SpecExpr>> },
    Product(Seq<Node<SpecExpr>>),
    Typed { ty: Node<SpecType>, item: Box<Node<SpecExpr>> },
    Function { parameter: Node<SpecType>, body: Box<Node<SpecExpr>> },
    Vector(Seq<Node<SpecExpr>>),
    MapOf(Seq<(Node<SpecExpr>, Node<SpecExpr>)>),
    Match { of: Box<Node<SpecExpr>>, cases: Seq<(Node<SpecType>, Node<SpecExpr>)> },
    Label { label: SpecDson, item: Box<Node<SpecExpr>> },
    Brand { brand: SpecDson, item: Box<Node<SpecExpr>> },
}

/// Mathematical model of [`EffectExpr`]; an effect is its input and output.
pub enum SpecEffectExpr {
    Effects(Seq<Node<(Node<SpecType>, Node<SpecType>)>>),
    Add(Seq<Node<SpecEffectExpr>>),
    Sub { minuend: Box<Node<SpecEffectExpr>>, subtrahend: Box<Node<SpecEffectExpr>> },
    Apply { function: Box<Node<SpecType>>, arguments: Seq<Node<SpecType>> },
}

/// Mathematical model of [`Type`]; a function is its parameter and body.
pub enum SpecType {
    Real,
    Rational,
    Integer,
    String,
    Trait(Seq<Node<(Node<SpecType>, Node<SpecType>)>>),
    Effectful { ty: Box<Node<SpecType>>, effects: Node<SpecEffectExpr> },
    Infer,
    This,
    Variable(Seq<char>),
    Product(Seq<Node<SpecType>>),
    Sum(Seq<Node<SpecType>>),
    Function { parameter: Box<Node<SpecType>>, body: Box<Node<SpecType>> },
    Vector(Box<Node<SpecType>>),
    MapOf { key: Box<Node<SpecType>>, value: Box<Node<SpecType>> },
    Let { variable: Seq<char>, definition: Box<Node<SpecType>>, body: Box<Node<SpecType>> },
    Brand { brand: SpecDson, item: Box<Node<SpecType>> },
    Label { label: SpecDson, item: Box<Node<SpecType>> },
    Forall { variable: Seq<char>, bound: Option<Box<Node<SpecType>>>, body: Box<Node<SpecType>> },
    Exists { variable: Seq<char>, bound: Option<Box<Node<SpecType>>>, body: Box<Node<SpecType>> },
}

pub open spec fn meta_view(m: Meta) -> SpecMeta {
    SpecMeta { id: if m.span is Some { m.id } else { 0 }, attrs: views(m.attrs@), span: m.span }
}

pub open spec fn literal_view(l: Literal) -> SpecLiteral {
    match l {
        Literal::String(s) => SpecLiteral::String(s@),
        Literal::Integer(i) => SpecLiteral::Integer(i),
        Literal::Rational(a, b) => SpecLiteral::Rational(a, b),
        Literal::Real(r) => SpecLiteral::Real(r),
    }
}

pub open spec fn type_node(t: WithMeta<Type>) -> Node<SpecType>
    decreases t, 1nat,
{
    Node { meta: meta_view(t.meta), value: type_view(t.value) }
}

pub open spec fn type_nodes(v: Vec<WithMeta<Type>>) -> Seq<Node<SpecType>>
    decreases v, 0nat,
{
    Seq::new(
        v@.len(),
        |i: int|
            if 0 <= i < v@.len() {
                type_node(v@[i])
            } else {
                Node { meta: SpecMeta { id: 0, attrs: seq![], span: None }, value: SpecType::Infer }
            },
    )
}

pub open spec fn function_node(f: WithMeta<Function>) -> Node<(Node<SpecType>, Node<SpecType>)>
    decreases f, 1nat,
{
    Node { meta: meta_view(f.meta), value: (type_node(f.value.parameter), type_node(f.value.body)) }
}

pub open spec fn effect_node(e: WithMeta<Effect>) -> Node<(Node<SpecType>, Node<SpecType>)>
    decreases e, 1nat,
{
    Node { meta: meta_view(e.meta), value: (type_node(e.value.input), type_node(e.value.output)) }
}

pub open spec fn effect_expr_node(e: WithMeta<EffectExpr>) -> Node<SpecEffectExpr>
    decreases e, 1nat,
{
    Node { meta: meta_view(e.meta), value: effect_expr_view(e.value) }
}

pub open spec fn effect_expr_view(e: EffectExpr) -> SpecEffectExpr
    decreases e, 0nat,
{
    match e {
        EffectExpr::Effects(v) => SpecEffectExpr::Effects(
            Seq::new(
                v@.len(),
                |i: int|
                    if 0 <= i < v@.len() {
                        effect_node(v@[i])
                    } else {
                        Node {
                            meta: SpecMeta { id: 0, attrs: seq![], span: None },
                            value: (
                                Node { meta: SpecMeta { id: 0, attrs: seq![], span: None }, value: SpecType::Infer },
                                Node { meta: SpecMeta { id: 0, attrs: seq![], span: None }, value: SpecType::Infer },
                            ),
                        }
                    },
            ),
        ),
        EffectExpr::Add(v) => SpecEffectExpr::Add(
            Seq::new(
                v@.len(),
                |i: int|
                    if 0 <= i < v@.len() {
                        effect_expr_node(v@[i])
                    } else {
                        Node {
                            meta: SpecMeta { id: 0, attrs: seq![], span: None },
                            value: SpecEffectExpr::Add(seq![]),
                        }
                    },
            ),
        ),
        EffectExpr::Sub { minuend, subtrahend } => SpecEffectExpr::Sub {
            minuend: Box::new(effect_expr_node(*minuend)),
            subtrahend: Box::new(effect_expr_node(*subtrahend)),
        },
        EffectExpr::Apply { function, arguments } => SpecEffectExpr::Apply {
            function: Box::new(type_node(*function)),
            arguments: type_nodes(arguments),
        },
    }
}

pub open spec fn type_view(t: Type) -> SpecType
    decreases t, 0nat,
{
    match t {
        Type::Real => SpecType::Real,
        Type::Rational => SpecType::Rational,
        Type::Integer => SpecType::Integer,
        Type::String => SpecType::String,
        Type::Trait(v) => SpecType::Trait(
            Seq::new(
                v@.len(),
                |i: int|
                    if 0 <= i < v@.len() {
                        function_node(v@[i])
                    } else {
                        Node {
                            meta: SpecMeta { id: 0, attrs: seq![], span: None },
                            value: (
                                Node { meta: SpecMeta { id: 0, attrs: seq![], span: None }, value: SpecType::Infer },
                                Node { meta: SpecMeta { id: 0, attrs: seq![], span: None }, value: SpecType::Infer },
                            ),
                        }
                    },
            ),
        ),
        Type::Effectful { ty, effects } => SpecType::Effectful {
            ty: Box::new(type_node(*ty)),
            effects: effect_expr_node(effects),
        },
        Type::Infer => SpecType::Infer,
        Type::This => SpecType::This,
        Type::Variable(s) => SpecType::Variable(s@),
        Type::Product(v) => SpecType::Product(type_nodes(v)),
        Type::Sum(v) => SpecType::Sum(type_nodes(v)),
        Type::Function(f) => SpecType::Function {
            parameter: Box::new(type_node(f.parameter)),
            body: Box::new(type_node(f.body)),
        },
        Type::Vector(t) => SpecType::Vector(Box::new(type_node(*t))),
        Type::MapOf { key, value } => SpecType::MapOf {
            key: Box::new(type_node(*key)),
            value: Box::new(type_node(*value)),
        },
        Type::Let { variable, definition, body } => SpecType::Let {
            variable: variable@,
            definition: Box::new(type_node(*definition)),
            body: Box::new(type_node(*body)),
        },
        Type::Brand { brand, item } => SpecType::Brand { brand: brand@, item: Box::new(type_node(*item)) },
        Type::Label { label, item } => SpecType::Label { label: label@, item: Box::new(type_node(*item)) },
        Type::Forall { variable, bound, body } => SpecType::Forall {
            variable: variable@,
            bound: match bound {
                Some(b) => Some(Box::new(type_node(*b))),
                None => None,
            },
            body: Box::new(type_node(*body)),
        },
        Type::Exists { variable, bound, body } => SpecType::Exists {
            variable: variable@,
            bound: match bound {
                Some(b) => Some(Box::new(type_node(*b))),
                None => None,
            },
            body: Box::new(type_node(*body)),
        },
    }
}

pub open spec fn expr_node(e: WithMeta<Expr>) -> Node<SpecExpr>
    decreases e, 1nat,
{
    Node { meta: meta_view(e.meta), value: expr_view(e.value) }
}

pub open spec fn expr_nodes(v: Vec<WithMeta<Expr>>) -> Seq<Node<SpecExpr>>
    decreases v, 0nat,
{
    Seq::new(
        v@.len(),
        |i: int|
            if 0 <= i < v@.len() {
                expr_node(v@[i])
            } else {
                Node { meta: SpecMeta { id: 0, attrs: seq![], span: None }, value: SpecExpr::Product(seq![]) }
            },
    )
}

pub open spec fn expr_view(e: Expr) -> SpecExpr
    decreases e, 0nat,
{
    match e {
        Expr::Literal(l) => SpecExpr::Literal(literal_view(l)),
        Expr::Do { stmt, expr } => SpecExpr::Do { stmt: Box::new(expr_node(*stmt)), expr: Box::new(expr_node(*expr)) },
        Expr::Let { definition, expr } => SpecExpr::Let {
            definition: Box::new(expr_node(*definition)),
            expr: Box::new(expr_node(*expr)),
        },
        Expr::Perform { input, output } => SpecExpr::Perform {
            input: Box::new(expr_node(*input)),
            output: type_node(output),
        },
        Expr::Continue { input, output } => SpecExpr::Continue {
            input: Box::new(expr_node(*input)),
            output: type_node(output),
        },
        Expr::Handle { handlers, expr } => SpecExpr::Handle {
            handlers: Seq::new(
                handlers@.len(),
                |i: int|
                    if 0 <= i < handlers@.len() {
                        (
                            type_node(handlers@[i].effect.input),
                            type_node(handlers@[i].effect.output),
                            expr_node(handlers@[i].handler),
                        )
                    } else {
                        (
                            Node { meta: SpecMeta { id: 0, attrs: seq![], span: None }, value: SpecType::Infer },
                            Node { meta: SpecMeta { id: 0, attrs: seq![], span: None }, value: SpecType::Infer },
                            Node { meta: SpecMeta { id: 0, attrs: seq![], span: None }, value: SpecExpr::Product(seq![]) },
                        )
                    },
            ),
            expr: Box::new(expr_node(*expr)),
        },
        Expr::Apply { function, link_name, arguments } => SpecExpr::Apply {
            function: type_node(function),
            link_name,
            arguments: expr_nodes(arguments),
        },
        Expr::Product(v) => SpecExpr::Product(expr_nodes(v)),
        Expr::Typed { ty, item } => SpecExpr::Typed { ty: type_node(ty), item: Box::new(expr_node(*item)) },
        Expr::Function { parameter, body } => SpecExpr::Function {
            parameter: type_node(parameter),
            body: Box::new(expr_node(*body)),
        },
        Expr::Vector(v) => SpecExpr::Vector(expr_nodes(v)),
        Expr::MapOf(v) => SpecExpr::MapOf(
            Seq::new(
                v@.len(),
                |i: int|
                    if 0 <= i < v@.len() {
                        (expr_node(v@[i].key), expr_node(v@[i].value))
                    } else {
                        (
                            Node { meta: SpecMeta { id: 0, attrs: seq![], span: None }, value: SpecExpr::Product(seq![]) },
                            Node { meta: SpecMeta { id: 0, attrs: seq![], span: None }, value: SpecExpr::Product(seq![]) },
                        )
                    },
            ),
        ),
        Expr::Match { of, cases } => SpecExpr::Match {
            of: Box::new(expr_node(*of)),
            cases: Seq::new(
                cases@.len(),
                |i: int|
                    if 0 <= i < cases@.len() {
                        (type_node(cases@[i].ty), expr_node(cases@[i].expr))
                    } else {
                        (
                            Node { meta: SpecMeta { id: 0, attrs: seq![], span: None }, value: SpecType::Infer },
                            Node { meta: SpecMeta { id: 0, attrs: seq![], span: None }, value: SpecExpr::Product(seq![]) },
                        )
                    },
            ),
        },
        Expr::Label { label, item } => SpecExpr::Label { label: label@, item: Box::new(expr_node(*item)) },
        Expr::Brand { brand, item } => SpecExpr::Brand { brand: brand@, item: Box::new(expr_node(*item)) },
    }
}

/// A copy of the attributes with the same models.
pub fn clone_dsons(v: &Vec<Dson>) -> (r: Vec<Dson>)
    ensures
        views(r@) == views(v@),
{
    let mut r: Vec<Dson> = Vec::new();
    let mut i: usize = 0;
    while i < v.len()
        invariant
            i <= v@.len(),
            r@.len() == i,
            forall|j: int| 0 <= j < i ==> r@[j]@ == v@[j]@,
        decreases v@.len() - i,
    {
        r.push(v[i].clone_dson());
        i += 1;
    }
    assert(views(r@) =~= views(v@));
    r
}

/// A copy of the metadata with the same model.
pub fn clone_meta(m: &Meta) -> (r: Meta)
    ensures
        meta_view(r) == meta_view(*m),
        r.id == m.id,
        r.span == m.span,
{
    Meta { id: m.id, attrs: clone_dsons(&m.attrs), span: m.span }
}

/// A copy of the typed node with the same model.
pub fn clone_type_node(t: &WithMeta<Type>) -> (r: WithMeta<Type>)
    ensures
        type_node(r) == type_node(*t),
    decreases t, 2nat,
{
    WithMeta { meta: clone_meta(&t.meta), value: clone_type(&t.value) }
}

fn clone_type_nodes(whole: &Type, v: &Vec<WithMeta<Type>>) -> (r: Vec<WithMeta<Type>>)
    requires
        *whole == Type::Product(*v) || *whole == Type::Sum(*v),
    ensures
        type_nodes(r) == type_nodes(*v),
    decreases whole, 0nat,
{
    let mut r: Vec<WithMeta<Type>> = Vec::new();
    let mut i: usize = 0;
    while i < v.len()
        invariant
            i <= v@.len(),
            *whole == Type::Product(*v) || *whole == Type::Sum(*v),
            r@.len() == i,
            forall|j: int| 0 <= j < i ==> type_node(r@[j]) == type_node(v@[j]),
        decreases v@.len() - i,
    {
        proof {
            vstd::std_specs::vec::axiom_vec_index_decreases(*v, i as int);
            if *whole == Type::Product(*v) {
                assert(decreases_to!(*whole => whole->Product_0));
            } else {
                assert(decreases_to!(*whole => whole->Sum_0));
            }
        }
        r.push(clone_type_node(&v[i]));
        i += 1;
    }
    assert(type_nodes(r) =~= type_nodes(*v));
    r
}

fn clone_argument_nodes(whole: &EffectExpr, v: &Vec<WithMeta<Type>>) -> (r: Vec<WithMeta<Type>>)
    requires
        *whole matches EffectExpr::Apply { function: _, arguments } && arguments == *v,
    ensures
        type_nodes(r) == type_nodes(*v),
    decreases whole, 0nat,
{
    let mut r: Vec<WithMeta<Type>> = Vec::new();
    let mut i: usize = 0;
    while i < v.len()
        invariant
            i <= v@.len(),
            *whole matches EffectExpr::Apply { function: _, arguments } && arguments == *v,
            r@.len() == i,
            forall|j: int| 0 <= j < i ==> type_node(r@[j]) == type_node(v@[j]),
        decreases v@.len() - i,
    {
        proof {
            vstd::std_specs::vec::axiom_vec_index_decreases(*v, i as int);
            assert(decreases_to!(*whole => whole->arguments));
        }
        r.push(clone_type_node(&v[i]));
        i += 1;
    }
    assert(type_nodes(r) =~= type_nodes(*v));
    r
}

/// A copy of the effect expression with the same model.
pub fn clone_effect_expr_node(e: &WithMeta<EffectExpr>) -> (r: WithMeta<EffectExpr>)
    ensures
        effect_expr_node(r) == effect_expr_node(*e),
    decreases e, 2nat,
{
    WithMeta { meta: clone_meta(&e.meta), value: clone_effect_expr(&e.value) }
}

fn clone_effect_expr(e: &EffectExpr) -> (r: EffectExpr)
    ensures
        effect_expr_view(r) == effect_expr_view(*e),
    decreases e, 1nat,
{
    match e {
        EffectExpr::Effects(v) => {
            let mut r: Vec<WithMeta<Effect>> = Vec::new();
            let mut i: usize = 0;
            while i < v.len()
                invariant
                    i <= v@.len(),
                    *e == EffectExpr::Effects(*v),
                    r@.len() == i,
                    forall|j: int| 0 <= j < i ==> effect_node(r@[j]) == effect_node(v@[j]),
                decreases v@.len() - i,
            {
                proof {
                    vstd::std_specs::vec::axiom_vec_index_decreases(*v, i as int);
                    assert(decreases_to!(*e => e->Effects_0));
                }
                let x = &v[i];
                r.push(
                    WithMeta {
                        meta: clone_meta(&x.meta),
                        value: Effect { input: clone_type_node(&x.value.input), output: clone_type_node(&x.value.output) },
                    },
                );
                i += 1;
            }
            let out = EffectExpr::Effects(r);
            proof {
                assert(effect_expr_view(out)->Effects_0 =~= effect_expr_view(*e)->Effects_0);
            }
            out
        },
        EffectExpr::Add(v) => {
            let mut r: Vec<WithMeta<EffectExpr>> = Vec::new();
            let mut i: usize = 0;
            while i < v.len()
                invariant
                    i <= v@.len(),
                    *e == EffectExpr::Add(*v),
                    r@.len() == i,
                    forall|j: int| 0 <= j < i ==> effect_expr_node(r@[j]) == effect_expr_node(v@[j]),
                decreases v@.len() - i,
            {
                proof {
                    vstd::std_specs::vec::axiom_vec_index_decreases(*v, i as int);
                    assert(decreases_to!(*e => e->Add_0));
                }
                r.push(clone_effect_expr_node(&v[i]));
                i += 1;
            }
            let out = EffectExpr::Add(r);
            proof {
                assert(effect_expr_view(out)->Add_0 =~= effect_expr_view(*e)->Add_0);
            }
            out
        },
        EffectExpr::Sub { minuend, subtrahend } => EffectExpr::Sub {
            minuend: Box::new(clone_effect_expr_node(minuend)),
            subtrahend: Box::new(clone_effect_expr_node(subtrahend)),
        },
        EffectExpr::Apply { function, arguments } => EffectExpr::Apply {
            function: Box::new(clone_type_node(function)),
            arguments: clone_argument_nodes(e, arguments),
        },
    }
}

fn clone_bound(whole: &Type, b: &Option<Box<WithMeta<Type>>>) -> (r: Option<Box<WithMeta<Type>>>)
    requires
        (*whole matches Type::Forall { variable: _, bound, body: _ } && bound == *b) || (*whole matches Type::Exists {
            variable: _,
            bound,
            body: _,
        } && bound == *b),
    ensures
        match (r, *b) {
            (Some(x), Some(y)) => type_node(*x) == type_node(*y),
            (None, None) => true,
            _ => false,
        },
    decreases whole, 0nat,
{
    match b {
        Some(x) => {
            proof {
                if whole is Forall {
                    assert(decreases_to!(*whole => whole->Forall_bound));
                } else {
                    assert(decreases_to!(*whole => whole->Exists_bound));
                }
            }
            Some(Box::new(clone_type_node(x)))
        },
        None => None,
    }
}

/// A copy of the type with the same model.
pub fn clone_type(t: &Type) -> (r: Type)
    ensures
        type_view(r) == type_view(*t),
    decreases t, 1nat,
{
    match t {
        Type::Real => Type::Real,
        Type::Rational => Type::Rational,
        Type::Integer => Type::Integer,
        Type::String => Type::String,
        Type::Trait(v) => {
            let mut r: Vec<WithMeta<Function>> = Vec::new();
            let mut i: usize = 0;
            while i < v.len()
                invariant
                    i <= v@.len(),
                    *t == Type::Trait(*v),
                    r@.len() == i,
                    forall|j: int| 0 <= j < i ==> function_node(r@[j]) == function_node(v@[j]),
                decreases v@.len() - i,
            {
                proof {
                    vstd::std_specs::vec::axiom_vec_index_decreases(*v, i as int);
                    assert(decreases_to!(*t => t->Trait_0));
                }
                let x = &v[i];
                r.push(
                    WithMeta {
                        meta: clone_meta(&x.meta),
                        value: Function {
                            parameter: clone_type_node(&x.value.parameter),
                            body: clone_type_node(&x.value.body),
                        },
                    },
                );
                i += 1;
            }
            let out = Type::Trait(r);
            proof {
                assert(type_view(out)->Trait_0 =~= type_view(*t)->Trait_0);
            }
            out
        },
        Type::Effectful { ty, effects } => Type::Effectful {
            ty: Box::new(clone_type_node(ty)),
            effects: clone_effect_expr_node(effects),
        },
        Type::Infer => Type::Infer,
        Type::This => Type::This,
        Type::Variable(s) => Type::Variable(s.clone()),
        Type::Product(v) => Type::Product(clone_type_nodes(t, v)),
        Type::Sum(v) => Type::Sum(clone_type_nodes(t, v)),
        Type::Function(f) => Type::Function(
            Box::new(Function { parameter: clone_type_node(&f.parameter), body: clone_type_node(&f.body) }),
        ),
        Type::Vector(x) => Type::Vector(Box::new(clone_type_node(x))),
        Type::MapOf { key, value } => Type::MapOf {
            key: Box::new(clone_type_node(key)),
            value: Box::new(clone_type_node(value)),
        },
        Type::Let { variable, definition, body } => Type::Let {
            variable: variable.clone(),
            definition: Box::new(clone_type_node(definition)),
            body: Box::new(clone_type_node(body)),
        },
        Type::Brand { brand, item } => Type::Brand { brand: brand.clone_dson(), item: Box::new(clone_type_node(item)) },
        Type::Label { label, item } => Type::Label { label: label.clone_dson(), item: Box::new(clone_type_node(item)) },
        Type::Forall { variable, bound, body } => Type::Forall {
            variable: variable.clone(),
            bound: clone_bound(t, bound),
            body: Box::new(clone_type_node(body)),
        },
        Type::Exists { variable, bound, body } => Type::Exists {
            variable: variable.clone(),
            bound: clone_bound(t, bound),
            body: Box::new(clone_type_node(body)),
        },
    }
}

} // verus!
