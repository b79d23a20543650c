//! From the types of inference to the types handed to the later stages:
//! solved existentials and inferred holes are replaced by the types stored
//! for them, and curried functions become functions of several parameters.
use vstd::prelude::*;

use crate::ctx::{type_map_view, Ctx, Store};
use crate::sorted::views;
use crate::subtype_spec::INFERENCE_DEPTH;
use crate::ty::{
    effects_view, exprs_view, lemma_view_add, lemma_view_apply, lemma_view_effects, lemma_view_product,
    types_view, EffectExpr, Id, SpecEffect, SpecEffectExpr, SpecType, Type,
};
use crate::types;
use crate::effect_laws::{depth, depths};

verus! {

broadcast use vstd::std_specs::hash::group_hash_axioms;

/// The type handed on for `t`, with `stored` the types stored for
/// existentials and holes; `None` where one of them has no stored type, or
/// the conversion goes deeper than `fuel`.
pub open spec fn gen_type_spec(stored: Map<Id, SpecType>, t: SpecType, fuel: nat) -> Option<types::SpecType>
    decreases fuel, 0nat, 0nat,
{
    if fuel == 0 {
        None
    } else {
        let f = (fuel - 1) as nat;
        match t {
            SpecType::Number => Some(types::SpecType::Number),
            SpecType::String => Some(types::SpecType::String),
            SpecType::Product(s) => match gen_types_spec(stored, s, f) {
                Some(g) => Some(types::SpecType::Product(g)),
                None => None,
            },
            SpecType::Sum(s) => match gen_types_spec(stored, s, f) {
                Some(g) => Some(types::SpecType::Sum(g)),
                None => None,
            },
            SpecType::Function { parameter, body } => match (gen_type_spec(stored, *parameter, f), gen_type_spec(stored, *body, f)) {
                (Some(p), Some(b)) => if *body is Function {
                    match b {
                        types::SpecType::Function { parameters, body: inner } => Some(types::SpecType::Function {
                            parameters: seq![p] + parameters,
                            body: inner,
                        }),
                        _ => None,
                    }
                } else {
                    Some(types::SpecType::Function { parameters: seq![p], body: Box::new(b) })
                },
                _ => None,
            },
            SpecType::Array(x) => match gen_type_spec(stored, *x, f) {
                Some(g) => Some(types::SpecType::Vector(Box::new(g))),
                None => None,
            },
            SpecType::SetOf(x) => match gen_type_spec(stored, *x, f) {
                Some(g) => Some(types::SpecType::SetOf(Box::new(g))),
                None => None,
            },
            SpecType::Variable(id) => Some(types::SpecType::Variable(id)),
            SpecType::ForAll { variable, body } => match gen_type_spec(stored, *body, f) {
                Some(g) => Some(types::SpecType::ForAll { variable, body: Box::new(g) }),
                None => None,
            },
            SpecType::Effectful { ty, effects } => match (gen_type_spec(stored, *ty, f), gen_expr_spec(stored, effects, f)) {
                (Some(g), Some(e)) => Some(types::SpecType::Effectful { ty: Box::new(g), effects: e }),
                _ => None,
            },
            SpecType::Brand { brand, item } => match gen_type_spec(stored, *item, f) {
                Some(g) => Some(types::SpecType::Brand { brand, item: Box::new(g) }),
                None => None,
            },
            SpecType::Label { label, item } => match gen_type_spec(stored, *item, f) {
                Some(g) => Some(types::SpecType::Label { label, item: Box::new(g) }),
                None => None,
            },
            SpecType::Existential(id) => if stored.contains_key(id) { gen_type_spec(stored, stored[id], f) } else { None },
            SpecType::Infer(id) => if stored.contains_key(id) { gen_type_spec(stored, stored[id], f) } else { None },
        }
    }
}

/// [`gen_type_spec`] of each type of `s`.
pub open spec fn gen_types_spec(stored: Map<Id, SpecType>, s: Seq<SpecType>, fuel: nat) -> Option<Seq<types::SpecType>>
    decreases fuel, 1nat, s.len(),
{
    if s.len() == 0 {
        Some(seq![])
    } else {
        match (gen_types_spec(stored, s.drop_last(), fuel), gen_type_spec(stored, s.last(), fuel)) {
            (Some(a), Some(b)) => Some(a.push(b)),
            _ => None,
        }
    }
}

/// [`gen_type_spec`] of the input and the output of each effect of `s`.
pub open spec fn gen_effects_spec(stored: Map<Id, SpecType>, s: Seq<SpecEffect>, fuel: nat) -> Option<Seq<types::SpecEffect>>
    decreases fuel, 1nat, s.len(),
{
    if s.len() == 0 {
        Some(seq![])
    } else {
        match (
            gen_effects_spec(stored, s.drop_last(), fuel),
            gen_type_spec(stored, s.last().input, fuel),
            gen_type_spec(stored, s.last().output, fuel),
        ) {
            (Some(a), Some(i), Some(o)) => Some(a.push(types::SpecEffect { input: i, output: o })),
            _ => None,
        }
    }
}

/// [`gen_expr_spec`] of each expression of `s`.
pub open spec fn gen_exprs_spec(stored: Map<Id, SpecType>, s: Seq<SpecEffectExpr>, fuel: nat) -> Option<Seq<types::SpecEffectExpr>>
    decreases fuel, 1nat, s.len(),
{
    if s.len() == 0 {
        Some(seq![])
    } else {
        match (gen_exprs_spec(stored, s.drop_last(), fuel), gen_expr_spec(stored, s.last(), fuel)) {
            (Some(a), Some(b)) => Some(a.push(b)),
            _ => None,
        }
    }
}

/// The effect expression handed on for `e`, by [`gen_type_spec`] on its types.
pub open spec fn gen_expr_spec(stored: Map<Id, SpecType>, e: SpecEffectExpr, fuel: nat) -> Option<types::SpecEffectExpr>
    decreases fuel, 0nat, 0nat,
{
    if fuel == 0 {
        None
    } else {
        let f = (fuel - 1) as nat;
        match e {
            SpecEffectExpr::Effects(s) => match gen_effects_spec(stored, s, f) {
                Some(g) => Some(types::SpecEffectExpr::Effects(g)),
                None => None,
            },
            SpecEffectExpr::Add(s) => match gen_exprs_spec(stored, s, f) {
                Some(g) => Some(types::SpecEffectExpr::Add(g)),
                None => None,
            },
            SpecEffectExpr::Sub { minuend, subtrahend } => match (gen_expr_spec(stored, *minuend, f), gen_expr_spec(stored, *subtrahend, f)) {
                (Some(m), Some(s)) => Some(types::SpecEffectExpr::Sub { minuend: Box::new(m), subtrahend: Box::new(s) }),
                _ => None,
            },
            SpecEffectExpr::Apply { function, arguments } => match (gen_type_spec(stored, *function, f), gen_types_spec(stored, arguments, f)) {
                (Some(g), Some(a)) => Some(types::SpecEffectExpr::Apply { function: Box::new(g), arguments: a }),
                _ => None,
            },
        }
    }
}

impl Ctx {
    fn gen_types_with(&self, store: &Store, v: &Vec<Type>, fuel: u64) -> (r: Vec<types::Type>)
        requires
            gen_types_spec(type_map_view(store.types@), types_view(v@), fuel as nat) is Some,
        ensures
            gen_types_spec(type_map_view(store.types@), types_view(v@), fuel as nat) == Some(views(r@)),
        decreases fuel, 1nat, 0nat,
    {
        let ghost m = type_map_view(store.types@);
        let ghost s = types_view(v@);
        let mut r: Vec<types::Type> = Vec::new();
        let mut i: usize = 0;
        while i < v.len()
            invariant
                i <= v@.len(),
                s == types_view(v@),
                m == type_map_view(store.types@),
                r@.len() == i,
                gen_types_spec(m, s, fuel as nat) is Some,
                gen_types_spec(m, s.subrange(0, i as int), fuel as nat) == Some(views(r@)),
            decreases v@.len() - i,
        {
            proof {
                assert(s.subrange(0, i + 1).drop_last() =~= s.subrange(0, i as int));
                assert(s.subrange(0, i + 1).last() == s[i as int]);
                lemma_gen_types_prefix(m, s, i + 1, fuel as nat);
            }
            let ghost before = views(r@);
            r.push(self.gen_type_with(store, &v[i], fuel));
            proof { assert(views(r@) =~= before.push(r@[i as int]@)); }
            i += 1;
        }
        proof { assert(s.subrange(0, s.len() as int) =~= s); }
        r
    }

    /// The type handed on for `ty`, with a depth bound.
    pub fn gen_type_with(&self, store: &Store, ty: &Type, fuel: u64) -> (r: types::Type)
        requires
            gen_type_spec(type_map_view(store.types@), ty@, fuel as nat) is Some,
        ensures
            gen_type_spec(type_map_view(store.types@), ty@, fuel as nat) == Some(r@),
        decreases fuel, 0nat, 0nat,
    {
        let f: u64 = fuel - 1;
        match ty {
            Type::Number => types::Type::Number,
            Type::String => types::Type::String,
            Type::Product(v) => {
                proof { lemma_view_product(*v); }
                let g = self.gen_types_with(store, v, f);
                proof { types::lemma_view_list(g); }
                types::Type::Product(g)
            },
            Type::Sum(v) => {
                proof { lemma_view_product(*v); }
                let g = self.gen_types_with(store, v, f);
                proof { types::lemma_view_list(g); }
                types::Type::Sum(g)
            },
            Type::Function { parameter, body } => {
                let p = self.gen_type_with(store, parameter, f);
                let b = self.gen_type_with(store, body, f);
                match (&**body, b) {
                    (Type::Function { .. }, types::Type::Function { parameters, body: inner }) => {
                        proof { types::lemma_view_function(parameters, inner); }
                        let mut ps: Vec<types::Type> = Vec::new();
                        let ghost pv = p@;
                        ps.push(p);
                        let mut parameters = parameters;
                        let ghost rest = views(parameters@);
                        ps.append(&mut parameters);
                        proof {
                            assert(views(ps@) =~= seq![pv] + rest);
                            types::lemma_view_function(ps, inner);
                        }
                        types::Type::Function { parameters: ps, body: inner }
                    },
                    (_, b) => {
                        let mut ps: Vec<types::Type> = Vec::new();
                        let ghost pv = p@;
                        ps.push(p);
                        let bx = Box::new(b);
                        proof {
                            assert(views(ps@) =~= seq![pv]);
                            types::lemma_view_function(ps, bx);
                        }
                        types::Type::Function { parameters: ps, body: bx }
                    },
                }
            },
            Type::Array(x) => types::Type::Vector(Box::new(self.gen_type_with(store, x, f))),
            Type::SetOf(x) => types::Type::SetOf(Box::new(self.gen_type_with(store, x, f))),
            Type::Variable(id) => types::Type::Variable(*id),
            Type::ForAll { variable, body } => types::Type::ForAll {
                variable: *variable,
                body: Box::new(self.gen_type_with(store, body, f)),
            },
            Type::Effectful { ty: inner, effects } => types::Type::Effectful {
                ty: Box::new(self.gen_type_with(store, inner, f)),
                effects: self.gen_effect_expr_with(store, effects, f),
            },
            Type::Brand { brand, item } => types::Type::Brand {
                brand: brand.clone(),
                item: Box::new(self.gen_type_with(store, item, f)),
            },
            Type::Label { label, item } => types::Type::Label {
                label: label.clone(),
                item: Box::new(self.gen_type_with(store, item, f)),
            },
            Type::Existential(id) => match store.types.get(id) {
                Some(t) => {
                    assert(type_map_view(store.types@)[*id] == t@);
                    self.gen_type_with(store, t, f)
                },
                None => types::Type::Number,
            },
            Type::Infer(id) => match store.types.get(id) {
                Some(t) => {
                    assert(type_map_view(store.types@)[*id] == t@);
                    self.gen_type_with(store, t, f)
                },
                None => types::Type::Number,
            },
        }
    }

    /// The effect expression handed on for `expr`, with a depth bound.
    pub fn gen_effect_expr_with(&self, store: &Store, expr: &EffectExpr, fuel: u64) -> (r: types::EffectExpr)
        requires
            gen_expr_spec(type_map_view(store.types@), expr@, fuel as nat) is Some,
        ensures
            gen_expr_spec(type_map_view(store.types@), expr@, fuel as nat) == Some(r@),
        decreases fuel, 0nat, 0nat,
    {
        let ghost m = type_map_view(store.types@);
        let f: u64 = fuel - 1;
        match expr {
            EffectExpr::Effects(v) => {
                proof { lemma_view_effects(*v); }
                let ghost s = effects_view(v@);
                let mut r: Vec<types::Effect> = Vec::new();
                let mut i: usize = 0;
                while i < v.len()
                    invariant
                        i <= v@.len(),
                        s == effects_view(v@),
                        m == type_map_view(store.types@),
                        f < fuel,
                        r@.len() == i,
                        gen_effects_spec(m, s, f as nat) is Some,
                        gen_effects_spec(m, s.subrange(0, i as int), f as nat) == Some(views(r@)),
                    decreases v@.len() - i,
                {
                    proof {
                        assert(s.subrange(0, i + 1).drop_last() =~= s.subrange(0, i as int));
                        assert(s.subrange(0, i + 1).last() == s[i as int]);
                        lemma_gen_effects_prefix(m, s, i + 1, f as nat);
                    }
                    let ghost before = views(r@);
                    let input = self.gen_type_with(store, &v[i].input, f);
                    let output = self.gen_type_with(store, &v[i].output, f);
                    r.push(types::Effect { input, output });
                    proof { assert(views(r@) =~= before.push(r@[i as int]@)); }
                    i += 1;
                }
                proof {
                    assert(s.subrange(0, s.len() as int) =~= s);
                    types::lemma_view_effect_list(r);
                }
                types::EffectExpr::Effects(r)
            },
            EffectExpr::Add(v) => {
                proof { lemma_view_add(*v); }
                let ghost s = exprs_view(v@);
                let mut r: Vec<types::EffectExpr> = Vec::new();
                let mut i: usize = 0;
                while i < v.len()
                    invariant
                        i <= v@.len(),
                        s == exprs_view(v@),
                        m == type_map_view(store.types@),
                        f < fuel,
                        r@.len() == i,
                        gen_exprs_spec(m, s, f as nat) is Some,
                        gen_exprs_spec(m, s.subrange(0, i as int), f as nat) == Some(views(r@)),
                    decreases v@.len() - i,
                {
                    proof {
                        assert(s.subrange(0, i + 1).drop_last() =~= s.subrange(0, i as int));
                        assert(s.subrange(0, i + 1).last() == s[i as int]);
                        lemma_gen_exprs_prefix(m, s, i + 1, f as nat);
                    }
                    let ghost before = views(r@);
                    r.push(self.gen_effect_expr_with(store, &v[i], f));
                    proof { assert(views(r@) =~= before.push(r@[i as int]@)); }
                    i += 1;
                }
                proof {
                    assert(s.subrange(0, s.len() as int) =~= s);
                    types::lemma_view_expr_list(r);
                }
                types::EffectExpr::Add(r)
            },
            EffectExpr::Sub { minuend, subtrahend } => types::EffectExpr::Sub {
                minuend: Box::new(self.gen_effect_expr_with(store, minuend, f)),
                subtrahend: Box::new(self.gen_effect_expr_with(store, subtrahend, f)),
            },
            EffectExpr::Apply { function, arguments } => {
                proof { lemma_view_apply(*function, *arguments); }
                let g = Box::new(self.gen_type_with(store, function, f));
                let a = self.gen_types_with(store, arguments, f);
                proof { types::lemma_view_function(a, g); }
                types::EffectExpr::Apply { function: g, arguments: a }
            },
        }
    }

    /// The type handed on for `ty`: solved existentials and inferred holes
    /// are replaced by their stored types and curried functions become
    /// functions of several parameters, as [`gen_type_spec`] says. Defined
    /// where every existential and hole met has a stored type.
    pub fn gen_type(&self, store: &Store, ty: &Type) -> (r: types::Type)
        requires
            gen_type_spec(type_map_view(store.types@), ty@, INFERENCE_DEPTH as nat) is Some,
        ensures
            gen_type_spec(type_map_view(store.types@), ty@, INFERENCE_DEPTH as nat) == Some(r@),
    {
        self.gen_type_with(store, ty, INFERENCE_DEPTH)
    }

    /// The effect expression handed on for `expr`, as [`gen_expr_spec`] says.
    pub fn gen_effect_expr(&self, store: &Store, expr: &EffectExpr) -> (r: types::EffectExpr)
        requires
            gen_expr_spec(type_map_view(store.types@), expr@, INFERENCE_DEPTH as nat) is Some,
        ensures
            gen_expr_spec(type_map_view(store.types@), expr@, INFERENCE_DEPTH as nat) == Some(r@),
    {
        self.gen_effect_expr_with(store, expr, INFERENCE_DEPTH)
    }
}

/// A function whose body is a function is handed on as one function of
/// both parameters.
pub proof fn law_gen_type_uncurries(
    stored: Map<Id, SpecType>,
    a: SpecType,
    b: SpecType,
    c: SpecType,
    fuel: nat,
    ga: types::SpecType,
    gb: types::SpecType,
    gc: types::SpecType,
)
    requires
        fuel >= 2,
        !(c is Function),
        gen_type_spec(stored, a, (fuel - 1) as nat) == Some(ga),
        gen_type_spec(stored, b, (fuel - 2) as nat) == Some(gb),
        gen_type_spec(stored, c, (fuel - 2) as nat) == Some(gc),
    ensures
        gen_type_spec(
            stored,
            SpecType::Function {
                parameter: Box::new(a),
                body: Box::new(SpecType::Function { parameter: Box::new(b), body: Box::new(c) }),
            },
            fuel,
        ) == Some(types::SpecType::Function { parameters: seq![ga, gb], body: Box::new(gc) }),
{
    let inner = SpecType::Function { parameter: Box::new(b), body: Box::new(c) };
    assert(gen_type_spec(stored, inner, (fuel - 1) as nat) == Some(
        types::SpecType::Function { parameters: seq![gb], body: Box::new(gc) },
    ));
    assert(seq![ga] + seq![gb] =~= seq![ga, gb]);
}

proof fn lemma_gen_types_prefix(m: Map<Id, SpecType>, s: Seq<SpecType>, i: int, fuel: nat)
    requires
        0 <= i <= s.len(),
        gen_types_spec(m, s, fuel) is Some,
    ensures
        gen_types_spec(m, s.subrange(0, i), fuel) is Some,
    decreases s.len() - i,
{
    if i < s.len() {
        assert(s.subrange(0, i + 1).drop_last() =~= s.subrange(0, i));
        lemma_gen_types_prefix(m, s, i + 1, fuel);
    } else {
        assert(s.subrange(0, i) =~= s);
    }
}

proof fn lemma_gen_effects_prefix(m: Map<Id, SpecType>, s: Seq<SpecEffect>, i: int, fuel: nat)
    requires
        0 <= i <= s.len(),
        gen_effects_spec(m, s, fuel) is Some,
    ensures
        gen_effects_spec(m, s.subrange(0, i), fuel) is Some,
    decreases s.len() - i,
{
    if i < s.len() {
        assert(s.subrange(0, i + 1).drop_last() =~= s.subrange(0, i));
        lemma_gen_effects_prefix(m, s, i + 1, fuel);
    } else {
        assert(s.subrange(0, i) =~= s);
    }
}

proof fn lemma_gen_exprs_prefix(m: Map<Id, SpecType>, s: Seq<SpecEffectExpr>, i: int, fuel: nat)
    requires
        0 <= i <= s.len(),
        gen_exprs_spec(m, s, fuel) is Some,
    ensures
        gen_exprs_spec(m, s.subrange(0, i), fuel) is Some,
    decreases s.len() - i,
{
    if i < s.len() {
        assert(s.subrange(0, i + 1).drop_last() =~= s.subrange(0, i));
        lemma_gen_exprs_prefix(m, s, i + 1, fuel);
    } else {
        assert(s.subrange(0, i) =~= s);
    }
}

/// A number, a string or a variable.
pub open spec fn atom(t: SpecType) -> bool {
    t is Number || t is String || t is Variable
}

/// The same atom among the types handed on.
pub open spec fn same_atom(t: SpecType) -> types::SpecType {
    match t {
        SpecType::Number => types::SpecType::Number,
        SpecType::String => types::SpecType::String,
        SpecType::Variable(id) => types::SpecType::Variable(id),
        _ => types::SpecType::Number,
    }
}

/// Every effect of `s` goes from an atom to an atom.
pub open spec fn atom_effects(s: Seq<SpecEffect>) -> bool {
    forall|i: int| 0 <= i < s.len() ==> atom(#[trigger] s[i].input) && atom(s[i].output)
}

/// An effect expression built from lists of effects between atoms, sums and
/// differences.
pub open spec fn atom_expr(e: SpecEffectExpr) -> bool
    decreases e, 0nat,
{
    match e {
        SpecEffectExpr::Effects(s) => atom_effects(s),
        SpecEffectExpr::Add(s) => atom_exprs(s),
        SpecEffectExpr::Sub { minuend, subtrahend } => atom_expr(*minuend) && atom_expr(*subtrahend),
        SpecEffectExpr::Apply { .. } => false,
    }
}

pub open spec fn atom_exprs(s: Seq<SpecEffectExpr>) -> bool
    decreases s, s.len(),
{
    if s.len() == 0 { true } else { atom_exprs(s.drop_last()) && atom_expr(s.last()) }
}

/// The effects of `s`, among the types handed on.
pub open spec fn same_effects(s: Seq<SpecEffect>) -> Seq<types::SpecEffect> {
    Seq::new(s.len(), |i: int| types::SpecEffect { input: same_atom(s[i].input), output: same_atom(s[i].output) })
}

/// The same expression among the types handed on, each part in its place.
pub open spec fn same_expr(e: SpecEffectExpr) -> types::SpecEffectExpr
    decreases e, 0nat,
{
    match e {
        SpecEffectExpr::Effects(s) => types::SpecEffectExpr::Effects(same_effects(s)),
        SpecEffectExpr::Add(s) => types::SpecEffectExpr::Add(
            Seq::new(s.len(), |i: int| if 0 <= i < s.len() { same_expr(s[i]) } else { types::SpecEffectExpr::Add(seq![]) }),
        ),
        SpecEffectExpr::Sub { minuend, subtrahend } => types::SpecEffectExpr::Sub {
            minuend: Box::new(same_expr(*minuend)),
            subtrahend: Box::new(same_expr(*subtrahend)),
        },
        SpecEffectExpr::Apply { .. } => types::SpecEffectExpr::Add(seq![]),
    }
}

proof fn lemma_gen_atom_effects(stored: Map<Id, SpecType>, s: Seq<SpecEffect>, f: nat)
    requires
        atom_effects(s),
        f >= 1,
    ensures
        gen_effects_spec(stored, s, f) == Some(same_effects(s)),
    decreases s.len(),
{
    if s.len() > 0 {
        let t = s.drop_last();
        assert forall|i: int| 0 <= i < t.len() implies atom(#[trigger] t[i].input) && atom(t[i].output) by {
            assert(t[i] == s[i]);
        }
        lemma_gen_atom_effects(stored, t, f);
        assert(atom(s[s.len() - 1].input) && atom(s[s.len() - 1].output));
        let x = s.last();
        assert(gen_type_spec(stored, x.input, f) == Some(same_atom(x.input)));
        assert(gen_type_spec(stored, x.output, f) == Some(same_atom(x.output)));
        assert(same_effects(t).push(
            types::SpecEffect { input: same_atom(s.last().input), output: same_atom(s.last().output) },
        ) =~= same_effects(s));
    } else {
        assert(same_effects(s) =~= seq![]);
    }
}

proof fn lemma_gen_same(stored: Map<Id, SpecType>, e: SpecEffectExpr, fuel: nat)
    requires
        atom_expr(e),
        depth(e) < fuel,
    ensures
        gen_expr_spec(stored, e, fuel) == Some(same_expr(e)),
    decreases fuel, 0nat, 0nat,
{
    let f = (fuel - 1) as nat;
    match e {
        SpecEffectExpr::Effects(s) => lemma_gen_atom_effects(stored, s, f),
        SpecEffectExpr::Add(s) => {
            lemma_gen_same_exprs(stored, s, f);
            assert(Seq::new(s.len(), |i: int| same_expr(s[i])) =~= same_expr(e)->Add_0);
        },
        SpecEffectExpr::Sub { minuend, subtrahend } => {
            lemma_gen_same(stored, *minuend, f);
            lemma_gen_same(stored, *subtrahend, f);
        },
        SpecEffectExpr::Apply { .. } => {},
    }
}

proof fn lemma_gen_same_exprs(stored: Map<Id, SpecType>, s: Seq<SpecEffectExpr>, f: nat)
    requires
        atom_exprs(s),
        depths(s) < f,
    ensures
        gen_exprs_spec(stored, s, f) == Some(Seq::new(s.len(), |i: int| same_expr(s[i]))),
    decreases f, 1nat, s.len(),
{
    if s.len() > 0 {
        let t = s.drop_last();
        lemma_gen_same_exprs(stored, t, f);
        lemma_gen_same(stored, s.last(), f);
        assert(Seq::new(t.len(), |i: int| same_expr(t[i])).push(same_expr(s.last())) =~= Seq::new(
            s.len(),
            |i: int| same_expr(s[i]),
        ));
    } else {
        assert(Seq::new(s.len(), |i: int| same_expr(s[i])) =~= seq![]);
    }
}

/// An effect expression built from lists of effects between atoms, sums and
/// differences is handed on with the same structure, every part in its
/// place: a difference keeps its minuend and its subtrahend, a sum its
/// summands in order, a list its effects in order.
pub proof fn law_gen_effect_expr_keeps_structure(stored: Map<Id, SpecType>, e: SpecEffectExpr)
    requires
        atom_expr(e),
        depth(e) < INFERENCE_DEPTH,
    ensures
        gen_expr_spec(stored, e, INFERENCE_DEPTH as nat) == Some(same_expr(e)),
{
    lemma_gen_same(stored, e, INFERENCE_DEPTH as nat);
}

/// A type built from numbers, strings, variables, products, sums, arrays,
/// sets, brands and labels: no function, quantifier, effect, existential or
/// hole.
pub open spec fn first_order(t: SpecType) -> bool
    decreases t, 0nat,
{
    match t {
        SpecType::Number => true,
        SpecType::String => true,
        SpecType::Variable(_) => true,
        SpecType::Product(s) => first_order_all(s),
        SpecType::Sum(s) => first_order_all(s),
        SpecType::Array(x) => first_order(*x),
        SpecType::SetOf(x) => first_order(*x),
        SpecType::Brand { brand: _, item } => first_order(*item),
        SpecType::Label { label: _, item } => first_order(*item),
        _ => false,
    }
}

pub open spec fn first_order_all(s: Seq<SpecType>) -> bool
    decreases s, s.len(),
{
    if s.len() == 0 { true } else { first_order_all(s.drop_last()) && first_order(s.last()) }
}

/// The nesting depth of a type.
pub open spec fn type_depth(t: SpecType) -> nat
    decreases t, 0nat,
{
    match t {
        SpecType::Product(s) => 1 + type_depths(s),
        SpecType::Sum(s) => 1 + type_depths(s),
        SpecType::Array(x) => 1 + type_depth(*x),
        SpecType::SetOf(x) => 1 + type_depth(*x),
        SpecType::Brand { brand: _, item } => 1 + type_depth(*item),
        SpecType::Label { label: _, item } => 1 + type_depth(*item),
        _ => 1,
    }
}

pub open spec fn type_depths(s: Seq<SpecType>) -> nat
    decreases s, s.len(),
{
    if s.len() == 0 {
        0
    } else {
        let a = type_depths(s.drop_last());
        let b = type_depth(s.last());
        if a >= b { a } else { b }
    }
}

/// The same type among the types handed on, each part in its place; an
/// array becomes a vector.
pub open spec fn same_type(t: SpecType) -> types::SpecType
    decreases t, 0nat,
{
    match t {
        SpecType::Number => types::SpecType::Number,
        SpecType::String => types::SpecType::String,
        SpecType::Variable(id) => types::SpecType::Variable(id),
        SpecType::Product(s) => types::SpecType::Product(
            Seq::new(s.len(), |i: int| if 0 <= i < s.len() { same_type(s[i]) } else { types::SpecType::Number }),
        ),
        SpecType::Sum(s) => types::SpecType::Sum(
            Seq::new(s.len(), |i: int| if 0 <= i < s.len() { same_type(s[i]) } else { types::SpecType::Number }),
        ),
        SpecType::Array(x) => types::SpecType::Vector(Box::new(same_type(*x))),
        SpecType::SetOf(x) => types::SpecType::SetOf(Box::new(same_type(*x))),
        SpecType::Brand { brand, item } => types::SpecType::Brand { brand, item: Box::new(same_type(*item)) },
        SpecType::Label { label, item } => types::SpecType::Label { label, item: Box::new(same_type(*item)) },
        _ => types::SpecType::Number,
    }
}

proof fn lemma_gen_same_type(stored: Map<Id, SpecType>, t: SpecType, fuel: nat)
    requires
        first_order(t),
        type_depth(t) < fuel,
    ensures
        gen_type_spec(stored, t, fuel) == Some(same_type(t)),
    decreases fuel, 0nat, 0nat,
{
    let f = (fuel - 1) as nat;
    match t {
        SpecType::Product(s) => {
            lemma_gen_same_types(stored, s, f);
            assert(Seq::new(s.len(), |i: int| same_type(s[i])) =~= same_type(t)->Product_0);
        },
        SpecType::Sum(s) => {
            lemma_gen_same_types(stored, s, f);
            assert(Seq::new(s.len(), |i: int| same_type(s[i])) =~= same_type(t)->Sum_0);
        },
        SpecType::Array(x) => lemma_gen_same_type(stored, *x, f),
        SpecType::SetOf(x) => lemma_gen_same_type(stored, *x, f),
        SpecType::Brand { brand: _, item } => lemma_gen_same_type(stored, *item, f),
        SpecType::Label { label: _, item } => lemma_gen_same_type(stored, *item, f),
        _ => {},
    }
}

proof fn lemma_gen_same_types(stored: Map<Id, SpecType>, s: Seq<SpecType>, f: nat)
    requires
        first_order_all(s),
        type_depths(s) < f,
    ensures
        gen_types_spec(stored, s, f) == Some(Seq::new(s.len(), |i: int| same_type(s[i]))),
    decreases f, 1nat, s.len(),
{
    if s.len() > 0 {
        let t = s.drop_last();
        lemma_gen_same_types(stored, t, f);
        lemma_gen_same_type(stored, s.last(), f);
        assert(Seq::new(t.len(), |i: int| same_type(t[i])).push(same_type(s.last())) =~= Seq::new(
            s.len(),
            |i: int| same_type(s[i]),
        ));
    } else {
        assert(Seq::new(s.len(), |i: int| same_type(s[i])) =~= seq![]);
    }
}

/// A type built from numbers, strings, variables, products, sums, arrays,
/// sets, brands and labels is handed on with the same structure, every part
/// in its place: members in order, each brand and label on its own item.
pub proof fn law_gen_type_keeps_structure(stored: Map<Id, SpecType>, t: SpecType)
    requires
        first_order(t),
        type_depth(t) < INFERENCE_DEPTH,
    ensures
        gen_type_spec(stored, t, INFERENCE_DEPTH as nat) == Some(same_type(t)),
{
    lemma_gen_same_type(stored, t, INFERENCE_DEPTH as nat);
}

} // verus!
