//! The generation of the high-level representation from the syntax tree.
//!
//! Each node of the tree leaves its identifier and span on a stack as it is
//! entered; the node it becomes takes the top of that stack. Attributes are
//! gathered on the node they stand on, brands declared earlier turn labels
//! into brands, and new types become aliases that later type variables of
//! the same name stand for.
use vstd::prelude::*;

use crate::ast;
use crate::ast::{Span, WithSpan};
use crate::dson::{Dson, SpecDson};
use crate::hir::{
    Card, Cards, Effect, EffectExpr, Expr, Function, Handler, Literal, MapElem, MatchCase, Meta, Node, SpecEffectExpr,
    SpecExpr, SpecLiteral, SpecMeta, SpecType, Type, WithMeta,
};
use crate::sorted::views;
use std::collections::HashMap;

verus! {

broadcast use vstd::std_specs::hash::group_hash_axioms;

/// Mathematical model of the generator's state.
pub struct SpecHirGen {
    pub next_id: usize,
    /// The identifiers and spans of the nodes entered and not yet placed.
    pub spans: Seq<(u128, Span)>,
    /// The attributes of each node that has any.
    pub attrs: Map<u128, Seq<SpecDson>>,
    /// The types that new type names stand for.
    pub type_aliases: Seq<(Seq<char>, SpecType)>,
    /// The brands declared so far.
    pub brands: Seq<SpecDson>,
    /// The cards generated so far, with their identifiers.
    pub cards: Seq<(u128, Node<SpecExpr>)>,
}

/// A failure of generation.
#[derive(Debug)]
pub enum HirGenError {
    ClassExpected { span: u128 },
    UnexpectedClass { span: u128 },
    UnknownTypeAlias { alias: String, span: u128 },
    UnexpectedCard { card_id: u128 },
}

/// Mathematical model of [`HirGenError`].
pub enum SpecHirGenError {
    ClassExpected { span: u128 },
    UnexpectedClass { span: u128 },
    UnknownTypeAlias { alias: Seq<char>, span: u128 },
    UnexpectedCard { card_id: u128 },
}

impl View for HirGenError {
    type V = SpecHirGenError;

    open spec fn view(&self) -> SpecHirGenError {
        match self {
            HirGenError::ClassExpected { span } => SpecHirGenError::ClassExpected { span: *span },
            HirGenError::UnexpectedClass { span } => SpecHirGenError::UnexpectedClass { span: *span },
            HirGenError::UnknownTypeAlias { alias, span } => SpecHirGenError::UnknownTypeAlias {
                alias: alias@,
                span: *span,
            },
            HirGenError::UnexpectedCard { card_id } => SpecHirGenError::UnexpectedCard { card_id: *card_id },
        }
    }
}

/// The value stored under `k` in an association list.
pub open spec fn lookup<K, V>(s: Seq<(K, V)>, k: K) -> Option<V>
    decreases s.len(),
{
    if s.len() == 0 {
        None
    } else if s[0].0 == k {
        Some(s[0].1)
    } else {
        lookup(s.drop_first(), k)
    }
}

/// An association list with `v` stored under `k`: in place of the entry for
/// `k`, or at the end.
pub open spec fn store<K, V>(s: Seq<(K, V)>, k: K, v: V) -> Seq<(K, V)>
    decreases s.len(),
{
    if s.len() == 0 {
        seq![(k, v)]
    } else if s[0].0 == k {
        s.update(0, (k, v))
    } else {
        seq![s[0]] + store(s.drop_first(), k, v)
    }
}

/// The set of brands with `b` in it.
pub open spec fn with_brand(s: Seq<SpecDson>, b: SpecDson) -> Seq<SpecDson> {
    if s.contains(b) {
        s
    } else {
        s.push(b)
    }
}

/// The metadata of a node that stands for no place in the source.
pub open spec fn no_meta() -> SpecMeta {
    SpecMeta { id: 0, attrs: seq![], span: None }
}

pub open spec fn literal_of(l: ast::Literal) -> SpecLiteral {
    match l {
        ast::Literal::String(s) => SpecLiteral::String(s@),
        ast::Literal::Integer(i) => SpecLiteral::Integer(i),
        ast::Literal::Rational(a, b) => SpecLiteral::Rational(a, b),
        ast::Literal::Real(r) => SpecLiteral::Real(r),
    }
}

impl SpecHirGen {
    pub open spec fn push_span(self, id: u128, span: Span) -> SpecHirGen {
        SpecHirGen { spans: self.spans.push((id, span)), ..self }
    }

    pub open spec fn pop_span(self) -> SpecHirGen {
        SpecHirGen { spans: if self.spans.len() > 0 { self.spans.drop_last() } else { self.spans }, ..self }
    }

    /// The top of the stack of spans, as the metadata of a new node.
    pub open spec fn top_meta(self) -> SpecMeta {
        if self.spans.len() > 0 {
            SpecMeta { id: self.spans.last().0, attrs: seq![], span: Some(self.spans.last().1) }
        } else {
            no_meta()
        }
    }
}

/// `value` as a node placed at the top of the stack of spans, and the state
/// without it.
pub open spec fn placed<T>(st: SpecHirGen, value: T) -> (Result<Node<T>, SpecHirGenError>, SpecHirGen) {
    (Ok(Node { meta: st.top_meta(), value }), st.pop_span())
}

/// `n` with the attribute `attr` added, and the state where it is recorded.
pub open spec fn attributed<T>(n: Node<T>, attr: SpecDson, st: SpecHirGen) -> (Node<T>, SpecHirGen) {
    let attrs = n.meta.attrs.push(attr);
    (Node { meta: SpecMeta { attrs, ..n.meta }, value: n.value }, SpecHirGen { attrs: st.attrs.insert(n.meta.id, attrs), ..st })
}

/// The type that the syntax tree's type `t` becomes, and the state after.
pub open spec fn gen_type(st: SpecHirGen, t: WithSpan<ast::Type>) -> (Result<Node<SpecType>, SpecHirGenError>, SpecHirGen)
    decreases t, 0int,
{
    let st = st.push_span(t.id, t.span);
    match t.value {
        ast::Type::Real => placed(st, SpecType::Real),
        ast::Type::Rational => placed(st, SpecType::Rational),
        ast::Type::Integer => placed(st, SpecType::Integer),
        ast::Type::String => placed(st, SpecType::String),
        ast::Type::Trait(v) => match gen_functions(st, v, 0) {
            (Ok(fs), s) => placed(s, SpecType::Trait(fs)),
            (Err(e), s) => (Err(e), s),
        },
        ast::Type::Effectful { ty, effects } => match gen_type(st, *ty) {
            (Ok(a), s) => match gen_effect_expr(s, effects) {
                (Ok(b), s) => placed(s, SpecType::Effectful { ty: Box::new(a), effects: b }),
                (Err(e), s) => (Err(e), s),
            },
            (Err(e), s) => (Err(e), s),
        },
        ast::Type::Infer => placed(st, SpecType::Infer),
        ast::Type::This => placed(st, SpecType::This),
        ast::Type::Variable(ident) => placed(
            st,
            match lookup(st.type_aliases, ident@) {
                Some(aliased) => aliased,
                None => SpecType::Variable(ident@),
            },
        ),
        ast::Type::Product(v) => match gen_types(st, v, 0) {
            (Ok(ts), s) => placed(s, SpecType::Product(ts)),
            (Err(e), s) => (Err(e), s),
        },
        ast::Type::Sum(v) => match gen_types(st, v, 0) {
            (Ok(ts), s) => placed(s, SpecType::Sum(ts)),
            (Err(e), s) => (Err(e), s),
        },
        ast::Type::Function(f) => match gen_type(st, f.parameter) {
            (Ok(a), s) => match gen_type(s, f.body) {
                (Ok(b), s) => placed(s, SpecType::Function { parameter: Box::new(a), body: Box::new(b) }),
                (Err(e), s) => (Err(e), s),
            },
            (Err(e), s) => (Err(e), s),
        },
        ast::Type::Vector(x) => match gen_type(st, *x) {
            (Ok(a), s) => placed(s, SpecType::Vector(Box::new(a))),
            (Err(e), s) => (Err(e), s),
        },
        ast::Type::MapOf { key, value } => match gen_type(st, *key) {
            (Ok(a), s) => match gen_type(s, *value) {
                (Ok(b), s) => placed(s, SpecType::MapOf { key: Box::new(a), value: Box::new(b) }),
                (Err(e), s) => (Err(e), s),
            },
            (Err(e), s) => (Err(e), s),
        },
        ast::Type::Let { variable, definition, body } => match gen_type(st, *definition) {
            (Ok(a), s) => match gen_type(s, *body) {
                (Ok(b), s) => placed(
                    s,
                    SpecType::Let { variable: variable@, definition: Box::new(a), body: Box::new(b) },
                ),
                (Err(e), s) => (Err(e), s),
            },
            (Err(e), s) => (Err(e), s),
        },
        ast::Type::Labeled { brand, item } => match gen_type(st, *item) {
            (Ok(a), s) => if st.brands.contains(brand@) {
                placed(s, SpecType::Brand { brand: brand@, item: Box::new(a) })
            } else {
                placed(s, SpecType::Label { label: brand@, item: Box::new(a) })
            },
            (Err(e), s) => (Err(e), s),
        },
        ast::Type::Attributed { attr, ty } => match gen_type(st.pop_span(), *ty) {
            (Ok(a), s) => {
                let (n, s) = attributed(a, attr@, s);
                (Ok(n), s)
            },
            (Err(e), s) => (Err(e), s),
        },
        ast::Type::Comment { text: _, item } => gen_type(st, *item),
        ast::Type::Forall { variable, bound, body } => match gen_bound(st, bound) {
            (Ok(b), s) => match gen_type(s, *body) {
                (Ok(c), s) => placed(s, SpecType::Forall { variable: variable@, bound: b, body: Box::new(c) }),
                (Err(e), s) => (Err(e), s),
            },
            (Err(e), s) => (Err(e), s),
        },
        ast::Type::Exists { variable, bound, body } => match gen_bound(st, bound) {
            (Ok(b), s) => match gen_type(s, *body) {
                (Ok(c), s) => placed(s, SpecType::Exists { variable: variable@, bound: b, body: Box::new(c) }),
                (Err(e), s) => (Err(e), s),
            },
            (Err(e), s) => (Err(e), s),
        },
    }
}

/// The bound of a quantified type, if it has one.
pub open spec fn gen_bound(st: SpecHirGen, bound: Option<Box<WithSpan<ast::Type>>>) -> (
    Result<Option<Box<Node<SpecType>>>, SpecHirGenError>,
    SpecHirGen,
)
    decreases bound, 1int,
{
    match bound {
        Some(b) => match gen_type(st, *b) {
            (Ok(n), s) => (Ok(Some(Box::new(n))), s),
            (Err(e), s) => (Err(e), s),
        },
        None => (Ok(None), st),
    }
}

/// The types that `v`, from `i` on, become, and the state after.
pub open spec fn gen_types(st: SpecHirGen, v: Vec<WithSpan<ast::Type>>, i: int) -> (
    Result<Seq<Node<SpecType>>, SpecHirGenError>,
    SpecHirGen,
)
    decreases v, v@.len() - i,
{
    if 0 <= i < v@.len() {
        match gen_type(st, v@[i]) {
            (Ok(n), s) => match gen_types(s, v, i + 1) {
                (Ok(rest), s) => (Ok(seq![n] + rest), s),
                (Err(e), s) => (Err(e), s),
            },
            (Err(e), s) => (Err(e), s),
        }
    } else {
        (Ok(seq![]), st)
    }
}

/// The function types of a trait that `v`, from `i` on, become.
pub open spec fn gen_functions(st: SpecHirGen, v: Vec<WithSpan<ast::Function>>, i: int) -> (
    Result<Seq<Node<(Node<SpecType>, Node<SpecType>)>>, SpecHirGenError>,
    SpecHirGen,
)
    decreases v, v@.len() - i,
{
    if 0 <= i < v@.len() {
        let f = v@[i];
        match gen_type(st.push_span(f.id, f.span), f.value.parameter) {
            (Ok(a), s) => match gen_type(s, f.value.body) {
                (Ok(b), s) => match placed(s, (a, b)) {
                    (Ok(n), s) => match gen_functions(s, v, i + 1) {
                        (Ok(rest), s) => (Ok(seq![n] + rest), s),
                        (Err(e), s) => (Err(e), s),
                    },
                    (Err(e), s) => (Err(e), s),
                },
                (Err(e), s) => (Err(e), s),
            },
            (Err(e), s) => (Err(e), s),
        }
    } else {
        (Ok(seq![]), st)
    }
}

/// The effects that `v`, from `i` on, become.
pub open spec fn gen_effects(st: SpecHirGen, v: Vec<WithSpan<ast::Effect>>, i: int) -> (
    Result<Seq<Node<(Node<SpecType>, Node<SpecType>)>>, SpecHirGenError>,
    SpecHirGen,
)
    decreases v, v@.len() - i,
{
    if 0 <= i < v@.len() {
        let f = v@[i];
        match gen_type(st.push_span(f.id, f.span), f.value.input) {
            (Ok(a), s) => match gen_type(s, f.value.output) {
                (Ok(b), s) => match placed(s, (a, b)) {
                    (Ok(n), s) => match gen_effects(s, v, i + 1) {
                        (Ok(rest), s) => (Ok(seq![n] + rest), s),
                        (Err(e), s) => (Err(e), s),
                    },
                    (Err(e), s) => (Err(e), s),
                },
                (Err(e), s) => (Err(e), s),
            },
            (Err(e), s) => (Err(e), s),
        }
    } else {
        (Ok(seq![]), st)
    }
}

/// The effect expressions that `v`, from `i` on, become.
pub open spec fn gen_effect_exprs(st: SpecHirGen, v: Vec<WithSpan<ast::EffectExpr>>, i: int) -> (
    Result<Seq<Node<SpecEffectExpr>>, SpecHirGenError>,
    SpecHirGen,
)
    decreases v, v@.len() - i,
{
    if 0 <= i < v@.len() {
        match gen_effect_expr(st, v@[i]) {
            (Ok(n), s) => match gen_effect_exprs(s, v, i + 1) {
                (Ok(rest), s) => (Ok(seq![n] + rest), s),
                (Err(e), s) => (Err(e), s),
            },
            (Err(e), s) => (Err(e), s),
        }
    } else {
        (Ok(seq![]), st)
    }
}

/// The effect expression that `e` becomes, and the state after.
pub open spec fn gen_effect_expr(st: SpecHirGen, e: WithSpan<ast::EffectExpr>) -> (
    Result<Node<SpecEffectExpr>, SpecHirGenError>,
    SpecHirGen,
)
    decreases e, 0int,
{
    let st = st.push_span(e.id, e.span);
    match e.value {
        ast::EffectExpr::Effects(v) => match gen_effects(st, v, 0) {
            (Ok(es), s) => placed(s, SpecEffectExpr::Effects(es)),
            (Err(x), s) => (Err(x), s),
        },
        ast::EffectExpr::Add(v) => match gen_effect_exprs(st, v, 0) {
            (Ok(es), s) => placed(s, SpecEffectExpr::Add(es)),
            (Err(x), s) => (Err(x), s),
        },
        ast::EffectExpr::Sub { minuend, subtrahend } => match gen_effect_expr(st, *minuend) {
            (Ok(a), s) => match gen_effect_expr(s, *subtrahend) {
                (Ok(b), s) => placed(s, SpecEffectExpr::Sub { minuend: Box::new(a), subtrahend: Box::new(b) }),
                (Err(x), s) => (Err(x), s),
            },
            (Err(x), s) => (Err(x), s),
        },
        ast::EffectExpr::Apply { function, arguments } => match gen_type(st, *function) {
            (Ok(a), s) => match gen_types(s, arguments, 0) {
                (Ok(args), s) => placed(s, SpecEffectExpr::Apply { function: Box::new(a), arguments: args }),
                (Err(x), s) => (Err(x), s),
            },
            (Err(x), s) => (Err(x), s),
        },
    }
}

/// The state with the type that `ty` becomes as the alias of `ident`.
pub open spec fn add_new_type(st: SpecHirGen, ty: WithSpan<ast::Type>, ident: Seq<char>) -> (
    Result<(), SpecHirGenError>,
    SpecHirGen,
) {
    match gen_type(st, ty) {
        (Ok(n), s) => (Ok(()), SpecHirGen { type_aliases: store(s.type_aliases, ident, n.value), ..s }),
        (Err(e), s) => (Err(e), s),
    }
}

/// The expression that the syntax tree's expression `e` becomes, and the
/// state after.
pub open spec fn gen_card(st: SpecHirGen, e: WithSpan<ast::Expr>) -> (
    Result<Node<SpecExpr>, SpecHirGenError>,
    SpecHirGen,
)
    decreases e, 0int,
{
    let st = st.push_span(e.id, e.span);
    match e.value {
        ast::Expr::Literal(l) => placed(st, SpecExpr::Literal(literal_of(l))),
        ast::Expr::Hole => placed(
            st,
            SpecExpr::Perform {
                input: Box::new(Node { meta: no_meta(), value: SpecExpr::Product(seq![]) }),
                output: Node { meta: no_meta(), value: SpecType::Infer },
            },
        ),
        ast::Expr::Do { stmt, expr } => match gen_card(st, *stmt) {
            (Ok(a), s) => match gen_card(s, *expr) {
                (Ok(b), s) => placed(s, SpecExpr::Do { stmt: Box::new(a), expr: Box::new(b) }),
                (Err(x), s) => (Err(x), s),
            },
            (Err(x), s) => (Err(x), s),
        },
        ast::Expr::Let { definition, body } => match gen_card(st, *definition) {
            (Ok(a), s) => match gen_card(s, *body) {
                (Ok(b), s) => placed(s, SpecExpr::Let { definition: Box::new(a), expr: Box::new(b) }),
                (Err(x), s) => (Err(x), s),
            },
            (Err(x), s) => (Err(x), s),
        },
        ast::Expr::Perform { input, output } => match gen_card(st, *input) {
            (Ok(a), s) => match gen_type(s, output) {
                (Ok(b), s) => placed(s, SpecExpr::Perform { input: Box::new(a), output: b }),
                (Err(x), s) => (Err(x), s),
            },
            (Err(x), s) => (Err(x), s),
        },
        ast::Expr::Continue { input, output } => match gen_card(st, *input) {
            (Ok(a), s) => match gen_type(s, output) {
                (Ok(b), s) => placed(s, SpecExpr::Continue { input: Box::new(a), output: b }),
                (Err(x), s) => (Err(x), s),
            },
            (Err(x), s) => (Err(x), s),
        },
        ast::Expr::Handle { handlers, expr } => match gen_handlers(st, handlers, 0) {
            (Ok(hs), s) => match gen_card(s, *expr) {
                (Ok(b), s) => placed(s, SpecExpr::Handle { handlers: hs, expr: Box::new(b) }),
                (Err(x), s) => (Err(x), s),
            },
            (Err(x), s) => (Err(x), s),
        },
        ast::Expr::Apply { function, link_name, arguments } => match gen_type(st, function) {
            (Ok(a), s) => match gen_exprs(s, arguments, 0) {
                (Ok(args), s) => placed(s, SpecExpr::Apply { function: a, link_name, arguments: args }),
                (Err(x), s) => (Err(x), s),
            },
            (Err(x), s) => (Err(x), s),
        },
        ast::Expr::Product(v) => match gen_exprs(st, v, 0) {
            (Ok(items), s) => placed(s, SpecExpr::Product(items)),
            (Err(x), s) => (Err(x), s),
        },
        ast::Expr::Typed { ty, item } => match gen_type(st, ty) {
            (Ok(a), s) => match gen_card(s, *item) {
                (Ok(b), s) => placed(s, SpecExpr::Typed { ty: a, item: Box::new(b) }),
                (Err(x), s) => (Err(x), s),
            },
            (Err(x), s) => (Err(x), s),
        },
        ast::Expr::Function { parameter, body } => match gen_type(st, parameter) {
            (Ok(a), s) => match gen_card(s, *body) {
                (Ok(b), s) => placed(s, SpecExpr::Function { parameter: a, body: Box::new(b) }),
                (Err(x), s) => (Err(x), s),
            },
            (Err(x), s) => (Err(x), s),
        },
        ast::Expr::Vector(v) => match gen_exprs(st, v, 0) {
            (Ok(items), s) => placed(s, SpecExpr::Vector(items)),
            (Err(x), s) => (Err(x), s),
        },
        ast::Expr::MapOf(v) => match gen_map_elems(st, v, 0) {
            (Ok(elems), s) => placed(s, SpecExpr::MapOf(elems)),
            (Err(x), s) => (Err(x), s),
        },
        ast::Expr::Attributed { attr, item } => match gen_card(st.pop_span(), *item) {
            (Ok(a), s) => {
                let (n, s) = attributed(a, attr@, s);
                (Ok(n), s)
            },
            (Err(x), s) => (Err(x), s),
        },
        ast::Expr::Brand { brand, item } => gen_card(
            SpecHirGen { brands: with_brand(st.brands, brand@), ..st },
            *item,
        ),
        ast::Expr::Match { of, cases } => match gen_card(st, *of) {
            (Ok(a), s) => match gen_cases(s, cases, 0) {
                (Ok(cs), s) => placed(s, SpecExpr::Match { of: Box::new(a), cases: cs }),
                (Err(x), s) => (Err(x), s),
            },
            (Err(x), s) => (Err(x), s),
        },
        ast::Expr::Label { label, item } => match gen_card(st, *item) {
            (Ok(a), s) => if st.brands.contains(label@) {
                placed(s, SpecExpr::Brand { brand: label@, item: Box::new(a) })
            } else {
                placed(s, SpecExpr::Label { label: label@, item: Box::new(a) })
            },
            (Err(x), s) => (Err(x), s),
        },
        ast::Expr::NewType { ident, ty, expr } => match gen_type(st, ty) {
            (Ok(n), s) => gen_card(SpecHirGen { type_aliases: store(s.type_aliases, ident@, n.value), ..s }, *expr),
            (Err(x), s) => (Err(x), s),
        },
        ast::Expr::Comment { text: _, item } => gen_card(st, *item),
        ast::Expr::Card { id, item: _, next: _ } => (Err(SpecHirGenError::UnexpectedCard { card_id: id }), st),
    }
}

/// The expressions that `v`, from `i` on, become.
pub open spec fn gen_exprs(st: SpecHirGen, v: Vec<WithSpan<ast::Expr>>, i: int) -> (
    Result<Seq<Node<SpecExpr>>, SpecHirGenError>,
    SpecHirGen,
)
    decreases v, v@.len() - i,
{
    if 0 <= i < v@.len() {
        match gen_card(st, v@[i]) {
            (Ok(n), s) => match gen_exprs(s, v, i + 1) {
                (Ok(rest), s) => (Ok(seq![n] + rest), s),
                (Err(x), s) => (Err(x), s),
            },
            (Err(x), s) => (Err(x), s),
        }
    } else {
        (Ok(seq![]), st)
    }
}

/// The handlers that `v`, from `i` on, become: the effect's input and
/// output types, then the handler.
pub open spec fn gen_handlers(st: SpecHirGen, v: Vec<ast::Handler>, i: int) -> (
    Result<Seq<(Node<SpecType>, Node<SpecType>, Node<SpecExpr>)>, SpecHirGenError>,
    SpecHirGen,
)
    decreases v, v@.len() - i,
{
    if 0 <= i < v@.len() {
        let h = v@[i];
        match gen_type(st, h.effect.value.input) {
            (Ok(a), s) => match gen_type(s, h.effect.value.output) {
                (Ok(b), s) => match gen_card(s, h.handler) {
                    (Ok(c), s) => match gen_handlers(s, v, i + 1) {
                        (Ok(rest), s) => (Ok(seq![(a, b, c)] + rest), s),
                        (Err(x), s) => (Err(x), s),
                    },
                    (Err(x), s) => (Err(x), s),
                },
                (Err(x), s) => (Err(x), s),
            },
            (Err(x), s) => (Err(x), s),
        }
    } else {
        (Ok(seq![]), st)
    }
}

/// The entries of a map that `v`, from `i` on, become.
pub open spec fn gen_map_elems(st: SpecHirGen, v: Vec<ast::MapElem>, i: int) -> (
    Result<Seq<(Node<SpecExpr>, Node<SpecExpr>)>, SpecHirGenError>,
    SpecHirGen,
)
    decreases v, v@.len() - i,
{
    if 0 <= i < v@.len() {
        match gen_card(st, v@[i].key) {
            (Ok(a), s) => match gen_card(s, v@[i].value) {
                (Ok(b), s) => match gen_map_elems(s, v, i + 1) {
                    (Ok(rest), s) => (Ok(seq![(a, b)] + rest), s),
                    (Err(x), s) => (Err(x), s),
                },
                (Err(x), s) => (Err(x), s),
            },
            (Err(x), s) => (Err(x), s),
        }
    } else {
        (Ok(seq![]), st)
    }
}

/// The cases of a match that `v`, from `i` on, become.
pub open spec fn gen_cases(st: SpecHirGen, v: Vec<ast::MatchCase>, i: int) -> (
    Result<Seq<(Node<SpecType>, Node<SpecExpr>)>, SpecHirGenError>,
    SpecHirGen,
)
    decreases v, v@.len() - i,
{
    if 0 <= i < v@.len() {
        match gen_type(st, v@[i].ty) {
            (Ok(a), s) => match gen_card(s, v@[i].expr) {
                (Ok(b), s) => match gen_cases(s, v, i + 1) {
                    (Ok(rest), s) => (Ok(seq![(a, b)] + rest), s),
                    (Err(x), s) => (Err(x), s),
                },
                (Err(x), s) => (Err(x), s),
            },
            (Err(x), s) => (Err(x), s),
        }
    } else {
        (Ok(seq![]), st)
    }
}

/// The expression of a file after its cards, which are gathered in the
/// state, and the state after.
pub open spec fn gen_file(st: SpecHirGen, e: WithSpan<ast::Expr>) -> (
    Result<Node<SpecExpr>, SpecHirGenError>,
    SpecHirGen,
)
    decreases e,
{
    match e.value {
        ast::Expr::Card { id, item, next } => match gen_card(st, *item) {
            (Ok(h), s) => gen_file(SpecHirGen { cards: s.cards.push((id, h)), ..s }, *next),
            (Err(x), s) => (Err(x), s),
        },
        ast::Expr::Comment { text: _, item } => gen_file(st, *item),
        ast::Expr::NewType { ident, ty, expr } => match add_new_type(st, ty, ident@) {
            (Ok(_), s) => gen_file(s, *expr),
            (Err(x), s) => (Err(x), s),
        },
        _ => gen_card(st, e),
    }
}

/// The generator of the high-level representation.
#[derive(Debug)]
pub struct HirGen {
    next_id: usize,
    next_span: Vec<(u128, Span)>,
    /// The attributes of each node that has any.
    pub attrs: HashMap<u128, Vec<Dson>>,
    /// The types that new type names stand for.
    pub type_aliases: Vec<(String, Type)>,
    brands: Vec<Dson>,
    cards: Vec<Card>,
}

impl View for HirGen {
    type V = SpecHirGen;

    closed spec fn view(&self) -> SpecHirGen {
        SpecHirGen {
            next_id: self.next_id,
            spans: self.next_span@,
            attrs: Map::new(|k: u128| self.attrs@.contains_key(k), |k: u128| views(self.attrs@[k]@)),
            type_aliases: Seq::new(
                self.type_aliases@.len(),
                |i: int| (self.type_aliases@[i].0@, crate::hir::type_view(self.type_aliases@[i].1)),
            ),
            brands: views(self.brands@),
            cards: Seq::new(self.cards@.len(), |i: int| (self.cards@[i].id, crate::hir::expr_node(self.cards@[i].hir))),
        }
    }
}

pub open spec fn type_result(r: Result<WithMeta<Type>, HirGenError>) -> Result<Node<SpecType>, SpecHirGenError> {
    match r {
        Ok(w) => Ok(crate::hir::type_node(w)),
        Err(e) => Err(e@),
    }
}

pub open spec fn types_result(r: Result<Vec<WithMeta<Type>>, HirGenError>) -> Result<Seq<Node<SpecType>>, SpecHirGenError> {
    match r {
        Ok(v) => Ok(crate::hir::type_nodes(v)),
        Err(e) => Err(e@),
    }
}

pub open spec fn effect_expr_result(r: Result<WithMeta<EffectExpr>, HirGenError>) -> Result<
    Node<SpecEffectExpr>,
    SpecHirGenError,
> {
    match r {
        Ok(w) => Ok(crate::hir::effect_expr_node(w)),
        Err(e) => Err(e@),
    }
}

pub open spec fn expr_result(r: Result<WithMeta<Expr>, HirGenError>) -> Result<Node<SpecExpr>, SpecHirGenError> {
    match r {
        Ok(w) => Ok(crate::hir::expr_node(w)),
        Err(e) => Err(e@),
    }
}

/// `uuid::Uuid::new_v4`, then `Uuid::as_u128`: a random identifier. Nothing
/// is stated of the value.
#[verifier::external_body]
pub(crate) fn random_node_id() -> (r: u128) {
    uuid::Uuid::new_v4().as_u128()
}

/// The sequence with `acc` before the items that a generation from some
/// place on gives, or its failure.
pub open spec fn after<T>(acc: Seq<T>, r: (Result<Seq<T>, SpecHirGenError>, SpecHirGen)) -> (
    Result<Seq<T>, SpecHirGenError>,
    SpecHirGen,
) {
    match r {
        (Ok(rest), s) => (Ok(acc + rest), s),
        (Err(e), s) => (Err(e), s),
    }
}

impl HirGen {
    /// A generator with nothing gathered.
    pub fn new() -> (r: HirGen)
        ensures
            r@ == (SpecHirGen {
                next_id: 0,
                spans: seq![],
                attrs: Map::empty(),
                type_aliases: seq![],
                brands: seq![],
                cards: seq![],
            }),
    {
        let r = HirGen {
            next_id: 0,
            next_span: Vec::new(),
            attrs: HashMap::new(),
            type_aliases: Vec::new(),
            brands: Vec::new(),
            cards: Vec::new(),
        };
        proof {
            assert(r@.attrs =~= Map::empty());
            assert(r@.type_aliases =~= seq![]);
            assert(r@.brands =~= seq![]);
            assert(r@.cards =~= seq![]);
        }
        r
    }

    /// The next identifier, counting from zero.
    pub fn next_id(&mut self) -> (r: usize)
        requires
            old(self)@.next_id < usize::MAX,
        ensures
            r == old(self)@.next_id,
            final(self)@ == (SpecHirGen { next_id: (r + 1) as usize, ..old(self)@ }),
    {
        let id = self.next_id;
        self.next_id = id + 1;
        id
    }

    /// Enters a node with its identifier and span.
    pub fn push_span(&mut self, node_id: u128, span: Span)
        ensures
            final(self)@ == old(self)@.push_span(node_id, span),
    {
        self.next_span.push((node_id, span));
    }

    /// Leaves the last node entered.
    pub fn pop_span(&mut self) -> (r: Option<(u128, Span)>)
        ensures
            final(self)@ == old(self)@.pop_span(),
            r == (if old(self)@.spans.len() > 0 { Some(old(self)@.spans.last()) } else { None }),
    {
        self.next_span.pop()
    }

    /// `value` as a node at the place of the last node entered, which is left.
    fn with_meta<T>(&mut self, value: T) -> (r: WithMeta<T>)
        requires
            old(self)@.spans.len() > 0,
        ensures
            r.value == value,
            crate::hir::meta_view(r.meta) == old(self)@.top_meta(),
            r.meta.span is Some,
            final(self)@ == old(self)@.pop_span(),
    {
        let (id, span) = self.next_span.pop().unwrap();
        let r = WithMeta { meta: Meta { id, attrs: Vec::new(), span: Some(span) }, value };
        proof {
            assert(views(r.meta.attrs@) =~= seq![]);
        }
        r
    }

    /// `value` as a node at no place in the source, with a random identifier.
    fn with_no_span<T>(value: T) -> (r: WithMeta<T>)
        ensures
            r.value == value,
            crate::hir::meta_view(r.meta) == no_meta(),
    {
        let r = WithMeta { meta: Meta { id: random_node_id(), attrs: Vec::new(), span: None }, value };
        proof {
            assert(views(r.meta.attrs@) =~= seq![]);
        }
        r
    }

    /// The type that the alias `ident` stands for, if any.
    fn alias(&self, ident: &String) -> (r: Option<Type>)
        ensures
            match r {
                Some(t) => lookup(self@.type_aliases, ident@) == Some(crate::hir::type_view(t)),
                None => lookup(self@.type_aliases, ident@) is None,
            },
    {
        let ghost s = self@.type_aliases;
        let mut i: usize = 0;
        proof {
            assert(s.subrange(0, s.len() as int) =~= s);
        }
        while i < self.type_aliases.len()
            invariant
                i <= self.type_aliases@.len(),
                s == self@.type_aliases,
                lookup(s, ident@) == lookup(s.subrange(i as int, s.len() as int), ident@),
            decreases self.type_aliases@.len() - i,
        {
            let ghost rest = s.subrange(i as int, s.len() as int);
            proof {
                assert(rest.drop_first() =~= s.subrange(i + 1, s.len() as int));
            }
            if self.type_aliases[i].0 == *ident {
                return Some(crate::hir::clone_type(&self.type_aliases[i].1));
            }
            i += 1;
        }
        None
    }

    /// Records the attributes `attrs` of the node `id`.
    fn store_attrs(&mut self, id: u128, attrs: Vec<Dson>)
        ensures
            final(self)@ == (SpecHirGen { attrs: old(self)@.attrs.insert(id, views(attrs@)), ..old(self)@ }),
    {
        let ghost before = self.attrs@;
        self.attrs.insert(id, attrs);
        proof {
            assert(self@.attrs =~= old(self)@.attrs.insert(id, views(attrs@)));
        }
    }

    /// Records `ty` as the type the alias `ident` stands for.
    fn store_alias(&mut self, ident: &String, ty: Type)
        ensures
            final(self)@ == (SpecHirGen {
                type_aliases: store(old(self)@.type_aliases, ident@, crate::hir::type_view(ty)),
                ..old(self)@
            }),
    {
        let ghost s = self@.type_aliases;
        let ghost a = crate::hir::type_view(ty);
        let mut i: usize = 0;
        proof {
            assert(s.subrange(0, s.len() as int) =~= s);
            assert(s.subrange(0, 0) + store(s, ident@, a) =~= store(s, ident@, a));
        }
        while i < self.type_aliases.len()
            invariant
                i <= self.type_aliases@.len(),
                s == old(self)@.type_aliases,
                a == crate::hir::type_view(ty),
                *self == *old(self),
                store(s, ident@, a) == s.subrange(0, i as int) + store(s.subrange(i as int, s.len() as int), ident@, a),
            decreases self.type_aliases@.len() - i,
        {
            let ghost rest = s.subrange(i as int, s.len() as int);
            if self.type_aliases[i].0 == *ident {
                let ghost raw = self.type_aliases@;
                let name = ident.clone();
                let ghost entry = (name, ty);
                self.type_aliases.set(i, (name, ty));
                proof {
                    assert(self.type_aliases@ == raw.update(i as int, entry));
                    assert forall|j: int| 0 <= j < s.len() implies self@.type_aliases[j] == s.update(i as int, (ident@, a))[j] by {
                        if j != i {
                            assert(self.type_aliases@[j] == raw[j]);
                        }
                    }
                    assert(store(rest, ident@, a) == rest.update(0, (ident@, a)));
                    assert(self@.type_aliases =~= s.update(i as int, (ident@, a)));
                    assert(s.update(i as int, (ident@, a)) =~= s.subrange(0, i as int) + rest.update(0, (ident@, a)));
                }
                return;
            }
            proof {
                assert(rest.drop_first() =~= s.subrange(i + 1, s.len() as int));
                assert(s.subrange(0, i as int) + (seq![rest[0]] + store(rest.drop_first(), ident@, a)) =~= s.subrange(
                    0,
                    i + 1,
                ) + store(s.subrange(i + 1, s.len() as int), ident@, a));
            }
            i += 1;
        }
        self.type_aliases.push((ident.clone(), ty));
        proof {
            assert(s.subrange(i as int, s.len() as int) =~= seq![]);
            assert(self@.type_aliases =~= s.subrange(0, i as int) + seq![(ident@, a)]);
        }
    }

    /// Whether `brand` has been declared.
    fn has_brand(&self, brand: &Dson) -> (r: bool)
        ensures
            r == self@.brands.contains(brand@),
    {
        let mut i: usize = 0;
        while i < self.brands.len()
            invariant
                i <= self.brands@.len(),
                forall|j: int| 0 <= j < i ==> self@.brands[j] != brand@,
            decreases self.brands@.len() - i,
        {
            if self.brands[i].same(brand) {
                assert(self@.brands[i as int] == brand@);
                return true;
            }
            i += 1;
        }
        false
    }
}

pub proof fn lemma_after<T>(acc: Seq<T>, x: T, r: (Result<Seq<T>, SpecHirGenError>, SpecHirGen))
    ensures
        after(acc, after(seq![x], r)) == after(acc.push(x), r),
{
    if let (Ok(rest), s) = r {
        assert(acc + (seq![x] + rest) =~= acc.push(x) + rest);
    }
}

pub proof fn lemma_after_empty<T>(acc: Seq<T>, s: SpecHirGen)
    ensures
        after(acc, (Ok(seq![]), s)) == (Ok::<Seq<T>, SpecHirGenError>(acc), s),
{
    assert(acc + seq![] =~= acc);
}

impl HirGen {
    /// The types that `v` becomes, in order.
    fn gen_types_at(&mut self, v: &Vec<WithSpan<ast::Type>>) -> (r: Result<Vec<WithMeta<Type>>, HirGenError>)
        ensures
            (types_result(r), final(self)@) == gen_types(old(self)@, *v, 0),
            final(self)@.spans.len() >= old(self)@.spans.len(),
        decreases v, 0nat,
    {
        let mut out: Vec<WithMeta<Type>> = Vec::new();
        let ghost mut acc: Seq<Node<SpecType>> = seq![];
        let mut i: usize = 0;
        proof {
            assert(after(acc, gen_types(self@, *v, 0)) == gen_types(self@, *v, 0)) by {
                if let (Ok(rest), s) = gen_types(self@, *v, 0) {
                    assert(acc + rest =~= rest);
                }
            }
        }
        while i < v.len()
            invariant
                i <= v@.len(),
                out@.len() == acc.len(),
                forall|j: int| 0 <= j < acc.len() ==> crate::hir::type_node(#[trigger] out@[j]) == acc[j],
                gen_types(old(self)@, *v, 0) == after(acc, gen_types(self@, *v, i as int)),
                self@.spans.len() >= old(self)@.spans.len(),
            decreases v@.len() - i,
        {
            proof {
                vstd::std_specs::vec::axiom_vec_index_decreases(*v, i as int);
            }
            let ghost s0 = self@;
            match self.gen_type(&v[i]) {
                Ok(n) => {
                    proof {
                        lemma_after(acc, crate::hir::type_node(n), gen_types(self@, *v, i + 1));
                        acc = acc.push(crate::hir::type_node(n));
                    }
                    out.push(n);
                    i += 1;
                },
                Err(e) => {
                    return Err(e);
                },
            }
        }
        proof {
            lemma_after_empty(acc, self@);
            assert(crate::hir::type_nodes(out) =~= acc);
        }
        Ok(out)
    }

    /// The function types of a trait that `v` becomes, in order.
    fn gen_functions_at(&mut self, v: &Vec<WithSpan<ast::Function>>) -> (r: Result<Vec<WithMeta<Function>>, HirGenError>)
        ensures
            match r {
                Ok(out) => gen_functions(old(self)@, *v, 0) == (Ok::<_, SpecHirGenError>(Seq::new(
                    out@.len(),
                    |j: int| crate::hir::function_node(out@[j]),
                )), final(self)@),
                Err(e) => gen_functions(old(self)@, *v, 0) == (Err::<Seq<Node<(Node<SpecType>, Node<SpecType>)>>, _>(e@), final(self)@),
            },
            final(self)@.spans.len() >= old(self)@.spans.len(),
        decreases v, 0nat,
    {
        let mut out: Vec<WithMeta<Function>> = Vec::new();
        let ghost mut acc: Seq<Node<(Node<SpecType>, Node<SpecType>)>> = seq![];
        let mut i: usize = 0;
        proof {
            if let (Ok(rest), s) = gen_functions(self@, *v, 0) {
                assert(acc + rest =~= rest);
            }
        }
        while i < v.len()
            invariant
                i <= v@.len(),
                out@.len() == acc.len(),
                forall|j: int| 0 <= j < acc.len() ==> crate::hir::function_node(#[trigger] out@[j]) == acc[j],
                gen_functions(old(self)@, *v, 0) == after(acc, gen_functions(self@, *v, i as int)),
                self@.spans.len() >= old(self)@.spans.len(),
            decreases v@.len() - i,
        {
            proof {
                vstd::std_specs::vec::axiom_vec_index_decreases(*v, i as int);
            }
            let f = &v[i];
            let ghost s0 = self@;
            self.push_span(f.id, f.span);
            let parameter = match self.gen_type(&f.value.parameter) {
                Ok(n) => n,
                Err(e) => {
                    return Err(e);
                },
            };
            let body = match self.gen_type(&f.value.body) {
                Ok(n) => n,
                Err(e) => {
                    return Err(e);
                },
            };
            let n = self.with_meta(Function { parameter, body });
            proof {
                let x = crate::hir::function_node(n);
                lemma_after(acc, x, gen_functions(self@, *v, i + 1));
                acc = acc.push(x);
            }
            out.push(n);
            i += 1;
        }
        proof {
            lemma_after_empty(acc, self@);
            assert(Seq::new(out@.len(), |j: int| crate::hir::function_node(out@[j])) =~= acc);
        }
        Ok(out)
    }
}

impl HirGen {
    /// The type that the syntax tree's type `t` becomes.
    pub fn gen_type(&mut self, t: &WithSpan<ast::Type>) -> (r: Result<WithMeta<Type>, HirGenError>)
        ensures
            (type_result(r), final(self)@) == gen_type(old(self)@, *t),
            final(self)@.spans.len() >= old(self)@.spans.len(),
            r matches Ok(w) ==> w.meta.span is Some,
        decreases t, 1nat,
    {
        self.push_span(t.id, t.span);
        proof {
            assert(decreases_to!(*t => t.value));
        }
        match &t.value {
            ast::Type::Real => Ok(self.with_meta(Type::Real)),
            ast::Type::Rational => Ok(self.with_meta(Type::Rational)),
            ast::Type::Integer => Ok(self.with_meta(Type::Integer)),
            ast::Type::String => Ok(self.with_meta(Type::String)),
            ast::Type::Trait(v) => {
                let fs = self.gen_functions_at(v)?;
                let r = self.with_meta(Type::Trait(fs));
                proof {
                    assert(crate::hir::type_view(r.value)->Trait_0 =~= Seq::new(
                        fs@.len(),
                        |j: int| crate::hir::function_node(fs@[j]),
                    ));
                }
                Ok(r)
            },
            ast::Type::Effectful { ty, effects } => {
                let a = self.gen_type(ty)?;
                let b = self.gen_effect_expr(effects)?;
                Ok(self.with_meta(Type::Effectful { ty: Box::new(a), effects: b }))
            },
            ast::Type::Infer => Ok(self.with_meta(Type::Infer)),
            ast::Type::This => Ok(self.with_meta(Type::This)),
            ast::Type::Variable(ident) => {
                let ty = match self.alias(ident) {
                    Some(aliased) => aliased,
                    None => Type::Variable(ident.clone()),
                };
                Ok(self.with_meta(ty))
            },
            ast::Type::Product(v) => {
                let ts = self.gen_types_at(v)?;
                Ok(self.with_meta(Type::Product(ts)))
            },
            ast::Type::Sum(v) => {
                let ts = self.gen_types_at(v)?;
                Ok(self.with_meta(Type::Sum(ts)))
            },
            ast::Type::Function(f) => {
                let a = self.gen_type(&f.parameter)?;
                let b = self.gen_type(&f.body)?;
                Ok(self.with_meta(Type::Function(Box::new(Function { parameter: a, body: b }))))
            },
            ast::Type::Vector(x) => {
                let a = self.gen_type(x)?;
                Ok(self.with_meta(Type::Vector(Box::new(a))))
            },
            ast::Type::MapOf { key, value } => {
                let a = self.gen_type(key)?;
                let b = self.gen_type(value)?;
                Ok(self.with_meta(Type::MapOf { key: Box::new(a), value: Box::new(b) }))
            },
            ast::Type::Let { variable, definition, body } => {
                let a = self.gen_type(definition)?;
                let b = self.gen_type(body)?;
                Ok(self.with_meta(Type::Let { variable: variable.clone(), definition: Box::new(a), body: Box::new(b) }))
            },
            ast::Type::Labeled { brand, item } => {
                let is_brand = self.has_brand(brand);
                let a = self.gen_type(item)?;
                if is_brand {
                    Ok(self.with_meta(Type::Brand { brand: brand.clone_dson(), item: Box::new(a) }))
                } else {
                    Ok(self.with_meta(Type::Label { label: brand.clone_dson(), item: Box::new(a) }))
                }
            },
            ast::Type::Attributed { attr, ty } => {
                self.pop_span();
                let mut ret = self.gen_type(ty)?;
                let ghost before = ret.meta.attrs@;
                ret.meta.attrs.push(attr.clone_dson());
                let attrs = crate::hir::clone_dsons(&ret.meta.attrs);
                self.store_attrs(ret.meta.id, attrs);
                proof {
                    assert(views(ret.meta.attrs@) =~= views(before).push(attr@));
                }
                Ok(ret)
            },
            ast::Type::Comment { text: _, item } => self.gen_type(item),
            ast::Type::Forall { variable, bound, body } => {
                let ghost s0 = self@;
                let b = match bound {
                    Some(x) => match self.gen_type(x) {
                        Ok(n) => {
                            proof {
                                assert(gen_bound(s0, *bound) == (Ok::<_, SpecHirGenError>(
                                    Some(Box::new(crate::hir::type_node(n))),
                                ), self@));
                            }
                            Some(Box::new(n))
                        },
                        Err(e) => {
                            proof {
                                assert(gen_bound(s0, *bound) == (Err::<Option<Box<Node<SpecType>>>, _>(e@), self@));
                            }
                            return Err(e);
                        },
                    },
                    None => {
                        proof {
                            assert(gen_bound(s0, *bound) == (Ok::<Option<Box<Node<SpecType>>>, SpecHirGenError>(None), s0));
                        }
                        None
                    },
                };
                let c = self.gen_type(body)?;
                Ok(self.with_meta(Type::Forall { variable: variable.clone(), bound: b, body: Box::new(c) }))
            },
            ast::Type::Exists { variable, bound, body } => {
                let ghost s0 = self@;
                let b = match bound {
                    Some(x) => match self.gen_type(x) {
                        Ok(n) => {
                            proof {
                                assert(gen_bound(s0, *bound) == (Ok::<_, SpecHirGenError>(
                                    Some(Box::new(crate::hir::type_node(n))),
                                ), self@));
                            }
                            Some(Box::new(n))
                        },
                        Err(e) => {
                            proof {
                                assert(gen_bound(s0, *bound) == (Err::<Option<Box<Node<SpecType>>>, _>(e@), self@));
                            }
                            return Err(e);
                        },
                    },
                    None => {
                        proof {
                            assert(gen_bound(s0, *bound) == (Ok::<Option<Box<Node<SpecType>>>, SpecHirGenError>(None), s0));
                        }
                        None
                    },
                };
                let c = self.gen_type(body)?;
                Ok(self.with_meta(Type::Exists { variable: variable.clone(), bound: b, body: Box::new(c) }))
            },
        }
    }

    /// The effect expression that the syntax tree's `e` becomes.
    pub fn gen_effect_expr(&mut self, e: &WithSpan<ast::EffectExpr>) -> (r: Result<WithMeta<EffectExpr>, HirGenError>)
        ensures
            (effect_expr_result(r), final(self)@) == gen_effect_expr(old(self)@, *e),
            final(self)@.spans.len() >= old(self)@.spans.len(),
            r matches Ok(w) ==> w.meta.span is Some,
        decreases e, 1nat,
    {
        self.push_span(e.id, e.span);
        proof {
            assert(decreases_to!(*e => e.value));
        }
        match &e.value {
            ast::EffectExpr::Effects(v) => {
                let es = self.gen_effects_at(v)?;
                let r = self.with_meta(EffectExpr::Effects(es));
                proof {
                    assert(crate::hir::effect_expr_view(r.value)->Effects_0 =~= Seq::new(
                        es@.len(),
                        |j: int| crate::hir::effect_node(es@[j]),
                    ));
                }
                Ok(r)
            },
            ast::EffectExpr::Add(v) => {
                let es = self.gen_effect_exprs_at(v)?;
                let r = self.with_meta(EffectExpr::Add(es));
                proof {
                    assert(crate::hir::effect_expr_view(r.value)->Add_0 =~= Seq::new(
                        es@.len(),
                        |j: int| crate::hir::effect_expr_node(es@[j]),
                    ));
                }
                Ok(r)
            },
            ast::EffectExpr::Sub { minuend, subtrahend } => {
                let a = self.gen_effect_expr(minuend)?;
                let b = self.gen_effect_expr(subtrahend)?;
                Ok(self.with_meta(EffectExpr::Sub { minuend: Box::new(a), subtrahend: Box::new(b) }))
            },
            ast::EffectExpr::Apply { function, arguments } => {
                let a = self.gen_type(function)?;
                let args = self.gen_types_at(arguments)?;
                Ok(self.with_meta(EffectExpr::Apply { function: Box::new(a), arguments: args }))
            },
        }
    }

    /// The effects that `v` becomes, in order.
    fn gen_effects_at(&mut self, v: &Vec<WithSpan<ast::Effect>>) -> (r: Result<Vec<WithMeta<Effect>>, HirGenError>)
        ensures
            match r {
                Ok(out) => gen_effects(old(self)@, *v, 0) == (Ok::<_, SpecHirGenError>(Seq::new(
                    out@.len(),
                    |j: int| crate::hir::effect_node(out@[j]),
                )), final(self)@),
                Err(e) => gen_effects(old(self)@, *v, 0) == (Err::<Seq<Node<(Node<SpecType>, Node<SpecType>)>>, _>(e@), final(self)@),
            },
            final(self)@.spans.len() >= old(self)@.spans.len(),
        decreases v, 0nat,
    {
        let mut out: Vec<WithMeta<Effect>> = Vec::new();
        let ghost mut acc: Seq<Node<(Node<SpecType>, Node<SpecType>)>> = seq![];
        let mut i: usize = 0;
        proof {
            if let (Ok(rest), s) = gen_effects(self@, *v, 0) {
                assert(acc + rest =~= rest);
            }
        }
        while i < v.len()
            invariant
                i <= v@.len(),
                out@.len() == acc.len(),
                forall|j: int| 0 <= j < acc.len() ==> crate::hir::effect_node(#[trigger] out@[j]) == acc[j],
                gen_effects(old(self)@, *v, 0) == after(acc, gen_effects(self@, *v, i as int)),
                self@.spans.len() >= old(self)@.spans.len(),
            decreases v@.len() - i,
        {
            proof {
                vstd::std_specs::vec::axiom_vec_index_decreases(*v, i as int);
            }
            let f = &v[i];
            self.push_span(f.id, f.span);
            let input = match self.gen_type(&f.value.input) {
                Ok(n) => n,
                Err(e) => {
                    return Err(e);
                },
            };
            let output = match self.gen_type(&f.value.output) {
                Ok(n) => n,
                Err(e) => {
                    return Err(e);
                },
            };
            let n = self.with_meta(Effect { input, output });
            proof {
                let x = crate::hir::effect_node(n);
                lemma_after(acc, x, gen_effects(self@, *v, i + 1));
                acc = acc.push(x);
            }
            out.push(n);
            i += 1;
        }
        proof {
            lemma_after_empty(acc, self@);
            assert(Seq::new(out@.len(), |j: int| crate::hir::effect_node(out@[j])) =~= acc);
        }
        Ok(out)
    }

    /// The effect expressions that `v` becomes, in order.
    fn gen_effect_exprs_at(&mut self, v: &Vec<WithSpan<ast::EffectExpr>>) -> (r: Result<Vec<WithMeta<EffectExpr>>, HirGenError>)
        ensures
            match r {
                Ok(out) => gen_effect_exprs(old(self)@, *v, 0) == (Ok::<_, SpecHirGenError>(Seq::new(
                    out@.len(),
                    |j: int| crate::hir::effect_expr_node(out@[j]),
                )), final(self)@),
                Err(e) => gen_effect_exprs(old(self)@, *v, 0) == (Err::<Seq<Node<SpecEffectExpr>>, _>(e@), final(self)@),
            },
            final(self)@.spans.len() >= old(self)@.spans.len(),
        decreases v, 0nat,
    {
        let mut out: Vec<WithMeta<EffectExpr>> = Vec::new();
        let ghost mut acc: Seq<Node<SpecEffectExpr>> = seq![];
        let mut i: usize = 0;
        proof {
            if let (Ok(rest), s) = gen_effect_exprs(self@, *v, 0) {
                assert(acc + rest =~= rest);
            }
        }
        while i < v.len()
            invariant
                i <= v@.len(),
                out@.len() == acc.len(),
                forall|j: int| 0 <= j < acc.len() ==> crate::hir::effect_expr_node(#[trigger] out@[j]) == acc[j],
                gen_effect_exprs(old(self)@, *v, 0) == after(acc, gen_effect_exprs(self@, *v, i as int)),
                self@.spans.len() >= old(self)@.spans.len(),
            decreases v@.len() - i,
        {
            proof {
                vstd::std_specs::vec::axiom_vec_index_decreases(*v, i as int);
            }
            match self.gen_effect_expr(&v[i]) {
                Ok(n) => {
                    proof {
                        let x = crate::hir::effect_expr_node(n);
                        lemma_after(acc, x, gen_effect_exprs(self@, *v, i + 1));
                        acc = acc.push(x);
                    }
                    out.push(n);
                    i += 1;
                },
                Err(e) => {
                    return Err(e);
                },
            }
        }
        proof {
            lemma_after_empty(acc, self@);
            assert(Seq::new(out@.len(), |j: int| crate::hir::effect_expr_node(out@[j])) =~= acc);
        }
        Ok(out)
    }
}

pub open spec fn exprs_result(r: Result<Vec<WithMeta<Expr>>, HirGenError>) -> Result<Seq<Node<SpecExpr>>, SpecHirGenError> {
    match r {
        Ok(v) => Ok(crate::hir::expr_nodes(v)),
        Err(e) => Err(e@),
    }
}

impl HirGen {
    /// The expression that the syntax tree's expression `e` becomes; a card
    /// is refused here.
    pub fn gen_card(&mut self, e: &WithSpan<ast::Expr>) -> (r: Result<WithMeta<Expr>, HirGenError>)
        ensures
            (expr_result(r), final(self)@) == gen_card(old(self)@, *e),
            final(self)@.spans.len() >= old(self)@.spans.len(),
            r matches Ok(w) ==> w.meta.span is Some,
        decreases e, 2nat,
    {
        match &e.value {
            ast::Expr::Literal(_) | ast::Expr::Hole | ast::Expr::Card { .. } | ast::Expr::Do { .. } | ast::Expr::Let {
                ..
            } | ast::Expr::Perform { .. } | ast::Expr::Continue { .. } => self.gen_card_leaf(e),
            ast::Expr::Typed { .. } | ast::Expr::Function { .. } | ast::Expr::Apply { .. } | ast::Expr::Product(_)
            | ast::Expr::Vector(_) => self.gen_card_typed(e),
            ast::Expr::Handle { .. } | ast::Expr::MapOf(_) | ast::Expr::Match { .. } => self.gen_card_nested(e),
            _ => self.gen_card_meta(e),
        }
    }

    /// Literals, holes, cards and expressions of two parts.
    fn gen_card_leaf(&mut self, e: &WithSpan<ast::Expr>) -> (r: Result<WithMeta<Expr>, HirGenError>)
        requires
            e.value is Literal || e.value is Hole || e.value is Card || e.value is Do || e.value is Let || e.value is Perform || e.value is Continue,
        ensures
            (expr_result(r), final(self)@) == gen_card(old(self)@, *e),
            final(self)@.spans.len() >= old(self)@.spans.len(),
            r matches Ok(w) ==> w.meta.span is Some,
        decreases e, 1nat,
    {
        self.push_span(e.id, e.span);
        proof {
            assert(decreases_to!(*e => e.value));
        }
        match &e.value {
            ast::Expr::Literal(l) => {
                let lit = match l {
                    ast::Literal::String(v) => Literal::String(v.clone()),
                    ast::Literal::Integer(v) => Literal::Integer(*v),
                    ast::Literal::Rational(a, b) => Literal::Rational(*a, *b),
                    ast::Literal::Real(v) => Literal::Real(*v),
                };
                proof {
                    assert(crate::hir::literal_view(lit) == literal_of(*l));
                }
                Ok(self.with_meta(Expr::Literal(lit)))
            },
            ast::Expr::Hole => {
                let none: Vec<WithMeta<Expr>> = Vec::new();
                proof {
                    assert(crate::hir::expr_nodes(none) =~= seq![]);
                }
                let input = HirGen::with_no_span(Expr::Product(none));
                let output = HirGen::with_no_span(Type::Infer);
                let r = self.with_meta(Expr::Perform { input: Box::new(input), output });
                proof {
                    assert(crate::hir::expr_node(input) == Node { meta: no_meta(), value: SpecExpr::Product(seq![]) });
                    assert(crate::hir::type_node(output) == Node { meta: no_meta(), value: SpecType::Infer });
                }
                Ok(r)
            },
            ast::Expr::Card { id, item: _, next: _ } => Err(HirGenError::UnexpectedCard { card_id: *id }),
            ast::Expr::Do { stmt, expr } => {
                let a = self.gen_card(stmt)?;
                let b = self.gen_card(expr)?;
                Ok(self.with_meta(Expr::Do { stmt: Box::new(a), expr: Box::new(b) }))
            },
            ast::Expr::Let { definition, body } => {
                let a = self.gen_card(definition)?;
                let b = self.gen_card(body)?;
                Ok(self.with_meta(Expr::Let { definition: Box::new(a), expr: Box::new(b) }))
            },
            ast::Expr::Perform { input, output } => {
                let a = self.gen_card(input)?;
                let b = self.gen_type(output)?;
                Ok(self.with_meta(Expr::Perform { input: Box::new(a), output: b }))
            },
            ast::Expr::Continue { input, output } => {
                let a = self.gen_card(input)?;
                let b = self.gen_type(output)?;
                Ok(self.with_meta(Expr::Continue { input: Box::new(a), output: b }))
            },
            _ => {
                proof {
                    assert(false);
                }
                Err(HirGenError::UnexpectedCard { card_id: e.id })
            },
        }
    }

    /// Typed expressions, functions, applications and lists.
    fn gen_card_typed(&mut self, e: &WithSpan<ast::Expr>) -> (r: Result<WithMeta<Expr>, HirGenError>)
        requires
            e.value is Typed || e.value is Function || e.value is Apply || e.value is Product || e.value is Vector,
        ensures
            (expr_result(r), final(self)@) == gen_card(old(self)@, *e),
            final(self)@.spans.len() >= old(self)@.spans.len(),
            r matches Ok(w) ==> w.meta.span is Some,
        decreases e, 1nat,
    {
        self.push_span(e.id, e.span);
        proof {
            assert(decreases_to!(*e => e.value));
        }
        match &e.value {
            ast::Expr::Typed { ty, item } => {
                let a = self.gen_type(ty)?;
                let b = self.gen_card(item)?;
                Ok(self.with_meta(Expr::Typed { ty: a, item: Box::new(b) }))
            },
            ast::Expr::Function { parameter, body } => {
                let a = self.gen_type(parameter)?;
                let b = self.gen_card(body)?;
                Ok(self.with_meta(Expr::Function { parameter: a, body: Box::new(b) }))
            },
            ast::Expr::Apply { function, link_name, arguments } => {
                let a = self.gen_type(function)?;
                let args = self.gen_exprs_at(arguments)?;
                Ok(self.with_meta(Expr::Apply { function: a, link_name: *link_name, arguments: args }))
            },
            ast::Expr::Product(v) => {
                let items = self.gen_exprs_at(v)?;
                Ok(self.with_meta(Expr::Product(items)))
            },
            ast::Expr::Vector(v) => {
                let items = self.gen_exprs_at(v)?;
                Ok(self.with_meta(Expr::Vector(items)))
            },
            _ => {
                proof {
                    assert(false);
                }
                Err(HirGenError::UnexpectedCard { card_id: e.id })
            },
        }
    }

    /// Handlers, maps and matches.
    fn gen_card_nested(&mut self, e: &WithSpan<ast::Expr>) -> (r: Result<WithMeta<Expr>, HirGenError>)
        requires
            e.value is Handle || e.value is MapOf || e.value is Match,
        ensures
            (expr_result(r), final(self)@) == gen_card(old(self)@, *e),
            final(self)@.spans.len() >= old(self)@.spans.len(),
            r matches Ok(w) ==> w.meta.span is Some,
        decreases e, 1nat,
    {
        self.push_span(e.id, e.span);
        proof {
            assert(decreases_to!(*e => e.value));
        }
        match &e.value {
            ast::Expr::Handle { handlers, expr } => {
                let hs = self.gen_handlers_at(handlers)?;
                let b = self.gen_card(expr)?;
                let r = self.with_meta(Expr::Handle { handlers: hs, expr: Box::new(b) });
                proof {
                    assert(crate::hir::expr_view(r.value)->handlers =~= Seq::new(
                        hs@.len(),
                        |j: int|
                            (
                                crate::hir::type_node(hs@[j].effect.input),
                                crate::hir::type_node(hs@[j].effect.output),
                                crate::hir::expr_node(hs@[j].handler),
                            ),
                    ));
                }
                Ok(r)
            },
            ast::Expr::MapOf(v) => {
                let elems = self.gen_map_elems_at(v)?;
                let r = self.with_meta(Expr::MapOf(elems));
                proof {
                    assert(crate::hir::expr_view(r.value)->MapOf_0 =~= Seq::new(
                        elems@.len(),
                        |j: int| (crate::hir::expr_node(elems@[j].key), crate::hir::expr_node(elems@[j].value)),
                    ));
                }
                Ok(r)
            },
            ast::Expr::Match { of, cases } => {
                let a = self.gen_card(of)?;
                let cs = self.gen_cases_at(cases)?;
                let r = self.with_meta(Expr::Match { of: Box::new(a), cases: cs });
                proof {
                    assert(crate::hir::expr_view(r.value)->cases =~= Seq::new(
                        cs@.len(),
                        |j: int| (crate::hir::type_node(cs@[j].ty), crate::hir::expr_node(cs@[j].expr)),
                    ));
                }
                Ok(r)
            },
            _ => {
                proof {
                    assert(false);
                }
                Err(HirGenError::UnexpectedCard { card_id: e.id })
            },
        }
    }

    /// Attributes, brands, labels, new types and comments.
    fn gen_card_meta(&mut self, e: &WithSpan<ast::Expr>) -> (r: Result<WithMeta<Expr>, HirGenError>)
        requires
            e.value is Attributed || e.value is Brand || e.value is Label || e.value is NewType || e.value is Comment,
        ensures
            (expr_result(r), final(self)@) == gen_card(old(self)@, *e),
            final(self)@.spans.len() >= old(self)@.spans.len(),
            r matches Ok(w) ==> w.meta.span is Some,
        decreases e, 1nat,
    {
        self.push_span(e.id, e.span);
        proof {
            assert(decreases_to!(*e => e.value));
        }
        match &e.value {
            ast::Expr::Attributed { attr, item } => {
                self.pop_span();
                let mut ret = self.gen_card(item)?;
                let ghost before = ret.meta.attrs@;
                ret.meta.attrs.push(attr.clone_dson());
                let attrs = crate::hir::clone_dsons(&ret.meta.attrs);
                self.store_attrs(ret.meta.id, attrs);
                proof {
                    assert(views(ret.meta.attrs@) =~= views(before).push(attr@));
                }
                Ok(ret)
            },
            ast::Expr::Brand { brand, item } => {
                self.add_brand(brand);
                self.gen_card(item)
            },
            ast::Expr::Label { label, item } => {
                let is_brand = self.has_brand(label);
                let a = self.gen_card(item)?;
                if is_brand {
                    Ok(self.with_meta(Expr::Brand { brand: label.clone_dson(), item: Box::new(a) }))
                } else {
                    Ok(self.with_meta(Expr::Label { label: label.clone_dson(), item: Box::new(a) }))
                }
            },
            ast::Expr::NewType { ident, ty, expr } => {
                let n = self.gen_type(ty)?;
                self.store_alias(ident, n.value);
                self.gen_card(expr)
            },
            ast::Expr::Comment { text: _, item } => self.gen_card(item),
            _ => {
                proof {
                    assert(false);
                }
                Err(HirGenError::UnexpectedCard { card_id: e.id })
            },
        }
    }

    /// Declares `brand`.
    fn add_brand(&mut self, brand: &Dson)
        ensures
            final(self)@ == (SpecHirGen { brands: with_brand(old(self)@.brands, brand@), ..old(self)@ }),
    {
        if !self.has_brand(brand) {
            let ghost before = self@;
            self.brands.push(brand.clone_dson());
            proof {
                assert(self@.brands =~= before.brands.push(brand@));
            }
        }
    }

    /// The expressions that `v` becomes, in order.
    fn gen_exprs_at(&mut self, v: &Vec<WithSpan<ast::Expr>>) -> (r: Result<Vec<WithMeta<Expr>>, HirGenError>)
        ensures
            (exprs_result(r), final(self)@) == gen_exprs(old(self)@, *v, 0),
            final(self)@.spans.len() >= old(self)@.spans.len(),
        decreases v, 0nat,
    {
        let mut out: Vec<WithMeta<Expr>> = Vec::new();
        let ghost mut acc: Seq<Node<SpecExpr>> = seq![];
        let mut i: usize = 0;
        proof {
            if let (Ok(rest), s) = gen_exprs(self@, *v, 0) {
                assert(acc + rest =~= rest);
            }
        }
        while i < v.len()
            invariant
                i <= v@.len(),
                out@.len() == acc.len(),
                forall|j: int| 0 <= j < acc.len() ==> crate::hir::expr_node(#[trigger] out@[j]) == acc[j],
                gen_exprs(old(self)@, *v, 0) == after(acc, gen_exprs(self@, *v, i as int)),
                self@.spans.len() >= old(self)@.spans.len(),
            decreases v@.len() - i,
        {
            proof {
                vstd::std_specs::vec::axiom_vec_index_decreases(*v, i as int);
            }
            match self.gen_card(&v[i]) {
                Ok(n) => {
                    proof {
                        lemma_after(acc, crate::hir::expr_node(n), gen_exprs(self@, *v, i + 1));
                        acc = acc.push(crate::hir::expr_node(n));
                    }
                    out.push(n);
                    i += 1;
                },
                Err(e) => {
                    return Err(e);
                },
            }
        }
        proof {
            lemma_after_empty(acc, self@);
            assert(crate::hir::expr_nodes(out) =~= acc);
        }
        Ok(out)
    }

    /// The handlers that `v` becomes, in order.
    fn gen_handlers_at(&mut self, v: &Vec<ast::Handler>) -> (r: Result<Vec<Handler>, HirGenError>)
        ensures
            match r {
                Ok(out) => gen_handlers(old(self)@, *v, 0) == (Ok::<_, SpecHirGenError>(Seq::new(
                    out@.len(),
                    |j: int|
                        (
                            crate::hir::type_node(out@[j].effect.input),
                            crate::hir::type_node(out@[j].effect.output),
                            crate::hir::expr_node(out@[j].handler),
                        ),
                )), final(self)@),
                Err(e) => gen_handlers(old(self)@, *v, 0) == (Err::<Seq<(Node<SpecType>, Node<SpecType>, Node<SpecExpr>)>, _>(
                    e@,
                ), final(self)@),
            },
            final(self)@.spans.len() >= old(self)@.spans.len(),
        decreases v, 0nat,
    {
        let mut out: Vec<Handler> = Vec::new();
        let ghost mut acc: Seq<(Node<SpecType>, Node<SpecType>, Node<SpecExpr>)> = seq![];
        let mut i: usize = 0;
        proof {
            if let (Ok(rest), s) = gen_handlers(self@, *v, 0) {
                assert(acc + rest =~= rest);
            }
        }
        while i < v.len()
            invariant
                i <= v@.len(),
                out@.len() == acc.len(),
                forall|j: int|
                    0 <= j < acc.len() ==> (
                        crate::hir::type_node(#[trigger] out@[j].effect.input),
                        crate::hir::type_node(out@[j].effect.output),
                        crate::hir::expr_node(out@[j].handler),
                    ) == acc[j],
                gen_handlers(old(self)@, *v, 0) == after(acc, gen_handlers(self@, *v, i as int)),
                self@.spans.len() >= old(self)@.spans.len(),
            decreases v@.len() - i,
        {
            proof {
                vstd::std_specs::vec::axiom_vec_index_decreases(*v, i as int);
            }
            let h = &v[i];
            let input = match self.gen_type(&h.effect.value.input) {
                Ok(n) => n,
                Err(e) => {
                    return Err(e);
                },
            };
            let output = match self.gen_type(&h.effect.value.output) {
                Ok(n) => n,
                Err(e) => {
                    return Err(e);
                },
            };
            let handler = match self.gen_card(&h.handler) {
                Ok(n) => n,
                Err(e) => {
                    return Err(e);
                },
            };
            proof {
                let x = (crate::hir::type_node(input), crate::hir::type_node(output), crate::hir::expr_node(handler));
                lemma_after(acc, x, gen_handlers(self@, *v, i + 1));
                acc = acc.push(x);
            }
            out.push(Handler { effect: Effect { input, output }, handler });
            i += 1;
        }
        proof {
            lemma_after_empty(acc, self@);
            assert(Seq::new(
                out@.len(),
                |j: int|
                    (
                        crate::hir::type_node(out@[j].effect.input),
                        crate::hir::type_node(out@[j].effect.output),
                        crate::hir::expr_node(out@[j].handler),
                    ),
            ) =~= acc);
        }
        Ok(out)
    }

    /// The entries of a map that `v` becomes, in order.
    fn gen_map_elems_at(&mut self, v: &Vec<ast::MapElem>) -> (r: Result<Vec<MapElem>, HirGenError>)
        ensures
            match r {
                Ok(out) => gen_map_elems(old(self)@, *v, 0) == (Ok::<_, SpecHirGenError>(Seq::new(
                    out@.len(),
                    |j: int| (crate::hir::expr_node(out@[j].key), crate::hir::expr_node(out@[j].value)),
                )), final(self)@),
                Err(e) => gen_map_elems(old(self)@, *v, 0) == (Err::<Seq<(Node<SpecExpr>, Node<SpecExpr>)>, _>(e@), final(self)@),
            },
            final(self)@.spans.len() >= old(self)@.spans.len(),
        decreases v, 0nat,
    {
        let mut out: Vec<MapElem> = Vec::new();
        let ghost mut acc: Seq<(Node<SpecExpr>, Node<SpecExpr>)> = seq![];
        let mut i: usize = 0;
        proof {
            if let (Ok(rest), s) = gen_map_elems(self@, *v, 0) {
                assert(acc + rest =~= rest);
            }
        }
        while i < v.len()
            invariant
                i <= v@.len(),
                out@.len() == acc.len(),
                forall|j: int|
                    0 <= j < acc.len() ==> (crate::hir::expr_node(#[trigger] out@[j].key), crate::hir::expr_node(
                        out@[j].value,
                    )) == acc[j],
                gen_map_elems(old(self)@, *v, 0) == after(acc, gen_map_elems(self@, *v, i as int)),
                self@.spans.len() >= old(self)@.spans.len(),
            decreases v@.len() - i,
        {
            proof {
                vstd::std_specs::vec::axiom_vec_index_decreases(*v, i as int);
            }
            let key = match self.gen_card(&v[i].key) {
                Ok(n) => n,
                Err(e) => {
                    return Err(e);
                },
            };
            let value = match self.gen_card(&v[i].value) {
                Ok(n) => n,
                Err(e) => {
                    return Err(e);
                },
            };
            proof {
                let x = (crate::hir::expr_node(key), crate::hir::expr_node(value));
                lemma_after(acc, x, gen_map_elems(self@, *v, i + 1));
                acc = acc.push(x);
            }
            out.push(MapElem { key, value });
            i += 1;
        }
        proof {
            lemma_after_empty(acc, self@);
            assert(Seq::new(
                out@.len(),
                |j: int| (crate::hir::expr_node(out@[j].key), crate::hir::expr_node(out@[j].value)),
            ) =~= acc);
        }
        Ok(out)
    }

    /// The cases of a match that `v` becomes, in order.
    fn gen_cases_at(&mut self, v: &Vec<ast::MatchCase>) -> (r: Result<Vec<MatchCase>, HirGenError>)
        ensures
            match r {
                Ok(out) => gen_cases(old(self)@, *v, 0) == (Ok::<_, SpecHirGenError>(Seq::new(
                    out@.len(),
                    |j: int| (crate::hir::type_node(out@[j].ty), crate::hir::expr_node(out@[j].expr)),
                )), final(self)@),
                Err(e) => gen_cases(old(self)@, *v, 0) == (Err::<Seq<(Node<SpecType>, Node<SpecExpr>)>, _>(e@), final(self)@),
            },
            final(self)@.spans.len() >= old(self)@.spans.len(),
        decreases v, 0nat,
    {
        let mut out: Vec<MatchCase> = Vec::new();
        let ghost mut acc: Seq<(Node<SpecType>, Node<SpecExpr>)> = seq![];
        let mut i: usize = 0;
        proof {
            if let (Ok(rest), s) = gen_cases(self@, *v, 0) {
                assert(acc + rest =~= rest);
            }
        }
        while i < v.len()
            invariant
                i <= v@.len(),
                out@.len() == acc.len(),
                forall|j: int|
                    0 <= j < acc.len() ==> (crate::hir::type_node(#[trigger] out@[j].ty), crate::hir::expr_node(
                        out@[j].expr,
                    )) == acc[j],
                gen_cases(old(self)@, *v, 0) == after(acc, gen_cases(self@, *v, i as int)),
                self@.spans.len() >= old(self)@.spans.len(),
            decreases v@.len() - i,
        {
            proof {
                vstd::std_specs::vec::axiom_vec_index_decreases(*v, i as int);
            }
            let ty = match self.gen_type(&v[i].ty) {
                Ok(n) => n,
                Err(e) => {
                    return Err(e);
                },
            };
            let expr = match self.gen_card(&v[i].expr) {
                Ok(n) => n,
                Err(e) => {
                    return Err(e);
                },
            };
            proof {
                let x = (crate::hir::type_node(ty), crate::hir::expr_node(expr));
                lemma_after(acc, x, gen_cases(self@, *v, i + 1));
                acc = acc.push(x);
            }
            out.push(MatchCase { ty, expr });
            i += 1;
        }
        proof {
            lemma_after_empty(acc, self@);
            assert(Seq::new(
                out@.len(),
                |j: int| (crate::hir::type_node(out@[j].ty), crate::hir::expr_node(out@[j].expr)),
            ) =~= acc);
        }
        Ok(out)
    }
}

/// The cards by their identifiers and models.
pub open spec fn cards_view(v: Vec<Card>) -> Seq<(u128, Node<SpecExpr>)> {
    Seq::new(v@.len(), |i: int| (v@[i].id, crate::hir::expr_node(v@[i].hir)))
}

/// The state of a generator that has gathered nothing.
pub open spec fn fresh() -> SpecHirGen {
    SpecHirGen { next_id: 0, spans: seq![], attrs: Map::empty(), type_aliases: seq![], brands: seq![], cards: seq![] }
}

impl HirGen {
    /// Records the type that `ty` becomes as the alias of `ident`.
    pub fn add_new_type(&mut self, ty: &WithSpan<ast::Type>, ident: &String) -> (r: Result<(), HirGenError>)
        ensures
            (match r {
                Ok(_) => Ok(()),
                Err(e) => Err(e@),
            }, final(self)@) == add_new_type(old(self)@, *ty, ident@),
            final(self)@.spans.len() >= old(self)@.spans.len(),
    {
        let n = self.gen_type(ty)?;
        self.store_alias(ident, n.value);
        Ok(())
    }

    /// The expression of a file after its cards, which are gathered.
    pub fn gen_cards(&mut self, ast: &WithSpan<ast::Expr>) -> (r: Result<WithMeta<Expr>, HirGenError>)
        ensures
            (expr_result(r), final(self)@) == gen_file(old(self)@, *ast),
            final(self)@.spans.len() >= old(self)@.spans.len(),
        decreases ast,
    {
        match &ast.value {
            ast::Expr::Card { id, item, next } => {
                let hir = self.gen_card(item)?;
                let ghost before = self@;
                let ghost h = crate::hir::expr_node(hir);
                self.cards.push(Card { id: *id, hir });
                proof {
                    assert(self@.cards =~= before.cards.push((*id, h)));
                }
                self.gen_cards(next)
            },
            ast::Expr::Comment { text: _, item } => self.gen_cards(item),
            ast::Expr::NewType { ident, ty, expr } => {
                self.add_new_type(ty, ident)?;
                self.gen_cards(expr)
            },
            _ => self.gen_card(ast),
        }
    }
}

impl Default for HirGen {
    fn default() -> (r: HirGen)
        ensures
            r@ == fresh(),
    {
        HirGen::new()
    }
}

/// The cards of a file and the expression after them, with the generator
/// that gathered them.
pub fn gen_cards(src: &WithSpan<ast::Expr>) -> (r: Result<(HirGen, Cards), HirGenError>)
    ensures
        match r {
            Ok((g, cards)) => gen_file(fresh(), *src) == (Ok::<_, SpecHirGenError>(crate::hir::expr_node(cards.file)), SpecHirGen {
                cards: cards_view(cards.cards),
                ..g@
            }) && g@.cards == Seq::<(u128, Node<SpecExpr>)>::empty(),
            Err(e) => gen_file(fresh(), *src).0 == Err::<Node<SpecExpr>, _>(e@),
        },
{
    let mut hirgen = HirGen::new();
    let file = hirgen.gen_cards(src)?;
    let ghost full = hirgen@;
    let mut cards: Vec<Card> = Vec::new();
    std::mem::swap(&mut cards, &mut hirgen.cards);
    proof {
        assert(cards_view(cards) =~= full.cards);
        assert(hirgen@.cards =~= Seq::<(u128, Node<SpecExpr>)>::empty());
        assert(full == (SpecHirGen { cards: cards_view(cards), ..hirgen@ }));
    }
    Ok((hirgen, Cards { cards, file }))
}

/// The expression of one card, with the generator that made it.
pub fn gen_hir(src: &WithSpan<ast::Expr>) -> (r: Result<(HirGen, WithMeta<Expr>), HirGenError>)
    ensures
        match r {
            Ok((g, hir)) => gen_card(fresh(), *src) == (Ok::<_, SpecHirGenError>(crate::hir::expr_node(hir)), g@),
            Err(e) => gen_card(fresh(), *src).0 == Err::<Node<SpecExpr>, _>(e@),
        },
{
    let mut hirgen = HirGen::new();
    let card = hirgen.gen_card(src)?;
    Ok((hirgen, card))
}

/// Where generating the type `t` succeeds, each part of a two-part type
/// (a map type's key and value, a function type's parameter and body, a
/// type definition's definition and body, an effectful type's type and
/// effects) is what generating that part alone gives, in the same position:
/// the first part from the state with `t` entered, the second from the state
/// the first part leaves.
pub proof fn law_gen_type_parts_in_place(st: SpecHirGen, t: WithSpan<ast::Type>)
    ensures
        ({
            let s0 = st.push_span(t.id, t.span);
            match (gen_type(st, t).0, t.value) {
                (Ok(n), ast::Type::MapOf { key, value }) => {
                    let (a, s1) = gen_type(s0, *key);
                    let (b, _) = gen_type(s1, *value);
                    a is Ok && b is Ok && n.value == SpecType::MapOf { key: Box::new(a->Ok_0), value: Box::new(b->Ok_0) }
                },
                (Ok(n), ast::Type::Function(f)) => {
                    let (a, s1) = gen_type(s0, f.parameter);
                    let (b, _) = gen_type(s1, f.body);
                    a is Ok && b is Ok && n.value == SpecType::Function { parameter: Box::new(a->Ok_0), body: Box::new(b->Ok_0) }
                },
                (Ok(n), ast::Type::Let { variable, definition, body }) => {
                    let (a, s1) = gen_type(s0, *definition);
                    let (b, _) = gen_type(s1, *body);
                    a is Ok && b is Ok && n.value == SpecType::Let {
                        variable: variable@,
                        definition: Box::new(a->Ok_0),
                        body: Box::new(b->Ok_0),
                    }
                },
                (Ok(n), ast::Type::Effectful { ty, effects }) => {
                    let (a, s1) = gen_type(s0, *ty);
                    let (b, _) = gen_effect_expr(s1, effects);
                    a is Ok && b is Ok && n.value == SpecType::Effectful { ty: Box::new(a->Ok_0), effects: b->Ok_0 }
                },
                _ => true,
            }
        }),
{
}

/// Where generating the expression `e` succeeds, each part of a two-part
/// expression (a sequence's statement and expression, a definition's
/// definition and body, a perform's or a continue's input and output type,
/// a typed expression's type and item, a function's parameter and body) is
/// what generating that part alone gives, in the same position: the first
/// part from the state with `e` entered, the second from the state the first
/// part leaves.
pub proof fn law_gen_card_parts_in_place(st: SpecHirGen, e: WithSpan<ast::Expr>)
    ensures
        ({
            let s0 = st.push_span(e.id, e.span);
            match (gen_card(st, e).0, e.value) {
                (Ok(n), ast::Expr::Do { stmt, expr }) => {
                    let (a, s1) = gen_card(s0, *stmt);
                    let (b, _) = gen_card(s1, *expr);
                    a is Ok && b is Ok && n.value == SpecExpr::Do { stmt: Box::new(a->Ok_0), expr: Box::new(b->Ok_0) }
                },
                (Ok(n), ast::Expr::Let { definition, body }) => {
                    let (a, s1) = gen_card(s0, *definition);
                    let (b, _) = gen_card(s1, *body);
                    a is Ok && b is Ok && n.value == SpecExpr::Let { definition: Box::new(a->Ok_0), expr: Box::new(b->Ok_0) }
                },
                (Ok(n), ast::Expr::Perform { input, output }) => {
                    let (a, s1) = gen_card(s0, *input);
                    let (b, _) = gen_type(s1, output);
                    a is Ok && b is Ok && n.value == SpecExpr::Perform { input: Box::new(a->Ok_0), output: b->Ok_0 }
                },
                (Ok(n), ast::Expr::Continue { input, output }) => {
                    let (a, s1) = gen_card(s0, *input);
                    let (b, _) = gen_type(s1, output);
                    a is Ok && b is Ok && n.value == SpecExpr::Continue { input: Box::new(a->Ok_0), output: b->Ok_0 }
                },
                (Ok(n), ast::Expr::Typed { ty, item }) => {
                    let (a, s1) = gen_type(s0, ty);
                    let (b, _) = gen_card(s1, *item);
                    a is Ok && b is Ok && n.value == SpecExpr::Typed { ty: a->Ok_0, item: Box::new(b->Ok_0) }
                },
                (Ok(n), ast::Expr::Function { parameter, body }) => {
                    let (a, s1) = gen_type(s0, parameter);
                    let (b, _) = gen_card(s1, *body);
                    a is Ok && b is Ok && n.value == SpecExpr::Function { parameter: a->Ok_0, body: Box::new(b->Ok_0) }
                },
                _ => true,
            }
        }),
{
}

} // verus!
