//! Substitution of a type for a variable or an existential, and the
//! occurrence and monotype checks.
use vstd::prelude::*;

use crate::ty::{
    effects_view, exprs_view, lemma_view_add, lemma_view_apply, lemma_view_effects,
    lemma_view_product, types_view, Effect, EffectExpr, Id, SpecEffect, SpecEffectExpr, SpecType,
    Type,
};

verus! {

/// `t` with every `Existential(id)` and `Variable(id)` replaced by `to`.
/// A quantifier does not stop the replacement under it.
pub open spec fn subst_type(t: SpecType, id: Id, to: SpecType) -> SpecType
    decreases t,
{
    match t {
        SpecType::Existential(x) => if x == id { to } else { t },
        SpecType::Variable(x) => if x == id { to } else { t },
        SpecType::Product(s) => SpecType::Product(
            Seq::new(s.len(), |i: int| if 0 <= i < s.len() { subst_type(s[i], id, to) } else { SpecType::Number }),
        ),
        SpecType::Sum(s) => SpecType::Sum(
            Seq::new(s.len(), |i: int| if 0 <= i < s.len() { subst_type(s[i], id, to) } else { SpecType::Number }),
        ),
        SpecType::Function { parameter, body } => SpecType::Function {
            parameter: Box::new(subst_type(*parameter, id, to)),
            body: Box::new(subst_type(*body, id, to)),
        },
        SpecType::Array(x) => SpecType::Array(Box::new(subst_type(*x, id, to))),
        SpecType::SetOf(x) => SpecType::SetOf(Box::new(subst_type(*x, id, to))),
        SpecType::ForAll { variable, body } => SpecType::ForAll {
            variable,
            body: Box::new(subst_type(*body, id, to)),
        },
        SpecType::Effectful { ty, effects } => SpecType::Effectful {
            ty: Box::new(subst_type(*ty, id, to)),
            effects: subst_expr(effects, id, to),
        },
        SpecType::Brand { brand, item } => SpecType::Brand { brand, item: Box::new(subst_type(*item, id, to)) },
        SpecType::Label { label, item } => SpecType::Label { label, item: Box::new(subst_type(*item, id, to)) },
        _ => t,
    }
}

pub open spec fn subst_effect(e: SpecEffect, id: Id, to: SpecType) -> SpecEffect
    decreases e,
{
    SpecEffect { input: subst_type(e.input, id, to), output: subst_type(e.output, id, to) }
}

/// Substitution in every type of an effect expression.
pub open spec fn subst_expr(e: SpecEffectExpr, id: Id, to: SpecType) -> SpecEffectExpr
    decreases e,
{
    match e {
        SpecEffectExpr::Effects(s) => SpecEffectExpr::Effects(
            Seq::new(s.len(), |i: int| if 0 <= i < s.len() { subst_effect(s[i], id, to) } else { s[0] }),
        ),
        SpecEffectExpr::Add(s) => SpecEffectExpr::Add(
            Seq::new(s.len(), |i: int| if 0 <= i < s.len() { subst_expr(s[i], id, to) } else { s[0] }),
        ),
        SpecEffectExpr::Sub { minuend, subtrahend } => SpecEffectExpr::Sub {
            minuend: Box::new(subst_expr(*minuend, id, to)),
            subtrahend: Box::new(subst_expr(*subtrahend, id, to)),
        },
        SpecEffectExpr::Apply { function, arguments } => SpecEffectExpr::Apply {
            function: Box::new(subst_type(*function, id, to)),
            arguments: Seq::new(arguments.len(), |i: int| if 0 <= i < arguments.len() { subst_type(arguments[i], id, to) } else { SpecType::Number }),
        },
    }
}

pub open spec fn subst_types(s: Seq<SpecType>, id: Id, to: SpecType) -> Seq<SpecType> {
    Seq::new(s.len(), |i: int| subst_type(s[i], id, to))
}

pub open spec fn subst_effects(s: Seq<SpecEffect>, id: Id, to: SpecType) -> Seq<SpecEffect> {
    Seq::new(s.len(), |i: int| subst_effect(s[i], id, to))
}

pub open spec fn subst_exprs(s: Seq<SpecEffectExpr>, id: Id, to: SpecType) -> Seq<SpecEffectExpr> {
    Seq::new(s.len(), |i: int| subst_expr(s[i], id, to))
}

proof fn lemma_subst_unfold(t: SpecType, e: SpecEffectExpr, id: Id, to: SpecType)
    ensures
        t is Product ==> subst_type(t, id, to) == SpecType::Product(subst_types(t->Product_0, id, to)),
        t is Sum ==> subst_type(t, id, to) == SpecType::Sum(subst_types(t->Sum_0, id, to)),
        e is Effects ==> subst_expr(e, id, to) == SpecEffectExpr::Effects(subst_effects(e->Effects_0, id, to)),
        e is Add ==> subst_expr(e, id, to) == SpecEffectExpr::Add(subst_exprs(e->Add_0, id, to)),
        e is Apply ==> subst_expr(e, id, to) == (SpecEffectExpr::Apply {
            function: Box::new(subst_type(*e->function, id, to)),
            arguments: subst_types(e->arguments, id, to),
        }),
{
    if t is Product {
        assert(subst_type(t, id, to)->Product_0 =~= subst_types(t->Product_0, id, to));
    }
    if t is Sum {
        assert(subst_type(t, id, to)->Sum_0 =~= subst_types(t->Sum_0, id, to));
    }
    if e is Effects {
        assert(subst_expr(e, id, to)->Effects_0 =~= subst_effects(e->Effects_0, id, to));
    }
    if e is Add {
        assert(subst_expr(e, id, to)->Add_0 =~= subst_exprs(e->Add_0, id, to));
    }
    if e is Apply {
        assert(subst_expr(e, id, to)->arguments =~= subst_types(e->arguments, id, to));
    }
}

fn substitute_types(v: &Vec<Type>, id: &Id, to: &Type) -> (r: Vec<Type>)
    ensures
        types_view(r@) == subst_types(types_view(v@), *id, to@),
    decreases v, 0nat,
{
    let mut r: Vec<Type> = Vec::new();
    let mut i: usize = 0;
    while i < v.len()
        invariant
            i <= v.len(),
            r@.len() == i,
            forall|j: int| 0 <= j < i ==> r@[j]@ == subst_type(v@[j]@, *id, to@),
        decreases v.len() - i,
    {
        proof { vstd::std_specs::vec::axiom_vec_index_decreases(*v, i as int); }
        r.push(substitute(&v[i], id, to));
        i += 1;
    }
    assert(types_view(r@) =~= subst_types(types_view(v@), *id, to@));
    r
}

fn substitute_effects(v: &Vec<Effect>, id: &Id, to: &Type) -> (r: Vec<Effect>)
    ensures
        effects_view(r@) == subst_effects(effects_view(v@), *id, to@),
    decreases v, 0nat,
{
    let mut r: Vec<Effect> = Vec::new();
    let mut i: usize = 0;
    while i < v.len()
        invariant
            i <= v.len(),
            r@.len() == i,
            forall|j: int| 0 <= j < i ==> r@[j]@ == subst_effect(v@[j]@, *id, to@),
        decreases v.len() - i,
    {
        proof { vstd::std_specs::vec::axiom_vec_index_decreases(*v, i as int); }
        let e = &v[i];
        r.push(Effect { input: substitute(&e.input, id, to), output: substitute(&e.output, id, to) });
        i += 1;
    }
    assert(effects_view(r@) =~= subst_effects(effects_view(v@), *id, to@));
    r
}

fn substitute_exprs(v: &Vec<EffectExpr>, id: &Id, to: &Type) -> (r: Vec<EffectExpr>)
    ensures
        exprs_view(r@) == subst_exprs(exprs_view(v@), *id, to@),
    decreases v, 0nat,
{
    let mut r: Vec<EffectExpr> = Vec::new();
    let mut i: usize = 0;
    while i < v.len()
        invariant
            i <= v.len(),
            r@.len() == i,
            forall|j: int| 0 <= j < i ==> r@[j]@ == subst_expr(v@[j]@, *id, to@),
        decreases v.len() - i,
    {
        proof { vstd::std_specs::vec::axiom_vec_index_decreases(*v, i as int); }
        r.push(substitute_expr(&v[i], id, to));
        i += 1;
    }
    assert(exprs_view(r@) =~= subst_exprs(exprs_view(v@), *id, to@));
    r
}

/// Replaces every `Existential(id)` and `Variable(id)` in `ty` by `to`.
pub fn substitute(ty: &Type, id: &Id, to: &Type) -> (r: Type)
    ensures
        r@ == subst_type(ty@, *id, to@),
    decreases ty, 1nat,
{
    proof { lemma_subst_unfold(ty@, SpecEffectExpr::Add(seq![]), *id, to@); }
    match ty {
        Type::Existential(x) => if *x == *id { to.clone_type() } else { Type::Existential(*x) },
        Type::Variable(x) => if *x == *id { to.clone_type() } else { Type::Variable(*x) },
        Type::Number => Type::Number,
        Type::String => Type::String,
        Type::Infer(x) => Type::Infer(*x),
        Type::Product(v) => {
            proof {
                assert(decreases_to!(*ty => ty->Product_0));
                lemma_view_product(*v);
            }
            let r = substitute_types(v, id, to);
            proof { lemma_view_product(r); }
            Type::Product(r)
        },
        Type::Sum(v) => {
            proof {
                assert(decreases_to!(*ty => ty->Sum_0));
                lemma_view_product(*v);
            }
            let r = substitute_types(v, id, to);
            proof { lemma_view_product(r); }
            Type::Sum(r)
        },
        Type::Function { parameter, body } => Type::Function {
            parameter: Box::new(substitute(parameter, id, to)),
            body: Box::new(substitute(body, id, to)),
        },
        Type::Array(x) => Type::Array(Box::new(substitute(x, id, to))),
        Type::SetOf(x) => Type::SetOf(Box::new(substitute(x, id, to))),
        Type::ForAll { variable, body } => Type::ForAll { variable: *variable, body: Box::new(substitute(body, id, to)) },
        Type::Effectful { ty: inner, effects } => Type::Effectful {
            ty: Box::new(substitute(inner, id, to)),
            effects: substitute_expr(effects, id, to),
        },
        Type::Brand { brand, item } => Type::Brand { brand: brand.clone(), item: Box::new(substitute(item, id, to)) },
        Type::Label { label, item } => Type::Label { label: label.clone(), item: Box::new(substitute(item, id, to)) },
    }
}

/// Replaces every `Existential(id)` and `Variable(id)` in the types of an
/// effect expression by `to`.
pub fn substitute_expr(e: &EffectExpr, id: &Id, to: &Type) -> (r: EffectExpr)
    ensures
        r@ == subst_expr(e@, *id, to@),
    decreases e, 1nat,
{
    proof { lemma_subst_unfold(SpecType::Number, e@, *id, to@); }
    match e {
        EffectExpr::Effects(v) => {
            proof {
                assert(decreases_to!(*e => e->Effects_0));
                lemma_view_effects(*v);
            }
            let r = substitute_effects(v, id, to);
            proof { lemma_view_effects(r); }
            EffectExpr::Effects(r)
        },
        EffectExpr::Add(v) => {
            proof {
                assert(decreases_to!(*e => e->Add_0));
                lemma_view_add(*v);
            }
            let r = substitute_exprs(v, id, to);
            proof { lemma_view_add(r); }
            EffectExpr::Add(r)
        },
        EffectExpr::Sub { minuend, subtrahend } => EffectExpr::Sub {
            minuend: Box::new(substitute_expr(minuend, id, to)),
            subtrahend: Box::new(substitute_expr(subtrahend, id, to)),
        },
        EffectExpr::Apply { function, arguments } => {
            proof {
                assert(decreases_to!(*e => e->arguments));
                lemma_view_apply(*function, *arguments);
            }
            let f = Box::new(substitute(function, id, to));
            let a = substitute_types(arguments, id, to);
            proof { lemma_view_apply(f, a); }
            EffectExpr::Apply { function: f, arguments: a }
        },
    }
}


/// `Existential(id)` occurs somewhere in `t`.
pub open spec fn occurs(id: Id, t: SpecType) -> bool
    decreases t,
{
    match t {
        SpecType::Existential(x) => x == id,
        SpecType::Product(s) => occurs_types(id, s),
        SpecType::Sum(s) => occurs_types(id, s),
        SpecType::Function { parameter, body } => occurs(id, *parameter) || occurs(id, *body),
        SpecType::Array(x) => occurs(id, *x),
        SpecType::SetOf(x) => occurs(id, *x),
        SpecType::ForAll { variable, body } => occurs(id, *body),
        SpecType::Effectful { ty, effects } => occurs(id, *ty) || occurs_expr(id, effects),
        SpecType::Brand { brand, item } => occurs(id, *item),
        SpecType::Label { label, item } => occurs(id, *item),
        _ => false,
    }
}

pub open spec fn occurs_types(id: Id, s: Seq<SpecType>) -> bool
    decreases s,
{
    if s.len() == 0 { false } else { occurs(id, s[0]) || occurs_types(id, s.subrange(1, s.len() as int)) }
}

pub open spec fn occurs_effects(id: Id, s: Seq<SpecEffect>) -> bool
    decreases s,
{
    if s.len() == 0 {
        false
    } else {
        occurs(id, s[0].input) || occurs(id, s[0].output) || occurs_effects(id, s.subrange(1, s.len() as int))
    }
}

pub open spec fn occurs_exprs(id: Id, s: Seq<SpecEffectExpr>) -> bool
    decreases s,
{
    if s.len() == 0 { false } else { occurs_expr(id, s[0]) || occurs_exprs(id, s.subrange(1, s.len() as int)) }
}

/// `Existential(id)` occurs in a type of `e`.
pub open spec fn occurs_expr(id: Id, e: SpecEffectExpr) -> bool
    decreases e,
{
    match e {
        SpecEffectExpr::Effects(s) => occurs_effects(id, s),
        SpecEffectExpr::Add(s) => occurs_exprs(id, s),
        SpecEffectExpr::Sub { minuend, subtrahend } => occurs_expr(id, *minuend) || occurs_expr(id, *subtrahend),
        SpecEffectExpr::Apply { function, arguments } => occurs(id, *function) || occurs_types(id, arguments),
    }
}

/// No quantifier occurs anywhere in `t`.
pub open spec fn monotype(t: SpecType) -> bool
    decreases t,
{
    match t {
        SpecType::ForAll { .. } => false,
        SpecType::Product(s) => monotype_types(s),
        SpecType::Sum(s) => monotype_types(s),
        SpecType::Function { parameter, body } => monotype(*parameter) && monotype(*body),
        SpecType::Array(x) => monotype(*x),
        SpecType::SetOf(x) => monotype(*x),
        SpecType::Effectful { ty, effects } => monotype(*ty) && monotype_expr(effects),
        SpecType::Brand { brand, item } => monotype(*item),
        SpecType::Label { label, item } => monotype(*item),
        _ => true,
    }
}

pub open spec fn monotype_types(s: Seq<SpecType>) -> bool
    decreases s,
{
    if s.len() == 0 { true } else { monotype(s[0]) && monotype_types(s.subrange(1, s.len() as int)) }
}

pub open spec fn monotype_effects(s: Seq<SpecEffect>) -> bool
    decreases s,
{
    if s.len() == 0 {
        true
    } else {
        monotype(s[0].input) && monotype(s[0].output) && monotype_effects(s.subrange(1, s.len() as int))
    }
}

pub open spec fn monotype_exprs(s: Seq<SpecEffectExpr>) -> bool
    decreases s,
{
    if s.len() == 0 { true } else { monotype_expr(s[0]) && monotype_exprs(s.subrange(1, s.len() as int)) }
}

pub open spec fn monotype_expr(e: SpecEffectExpr) -> bool
    decreases e,
{
    match e {
        SpecEffectExpr::Effects(s) => monotype_effects(s),
        SpecEffectExpr::Add(s) => monotype_exprs(s),
        SpecEffectExpr::Sub { minuend, subtrahend } => monotype_expr(*minuend) && monotype_expr(*subtrahend),
        SpecEffectExpr::Apply { function, arguments } => monotype(*function) && monotype_types(arguments),
    }
}

proof fn lemma_occurs_types_skip(s: Seq<SpecType>, i: int, id: Id)
    requires
        0 <= i <= s.len(),
        forall|j: int| 0 <= j < i ==> !occurs(id, s[j]),
    ensures
        occurs_types(id, s) == occurs_types(id, s.subrange(i, s.len() as int)),
    decreases i,
{
    if i > 0 {
        let s1 = s.subrange(1, s.len() as int);
        assert forall|j: int| 0 <= j < i - 1 implies !occurs(id, s1[j]) by {
            assert(s1[j] == s[j + 1]);
        }
        lemma_occurs_types_skip(s1, i - 1, id);
        assert(s1.subrange(i - 1, s1.len() as int) =~= s.subrange(i, s.len() as int));
    } else {
        assert(s.subrange(0, s.len() as int) =~= s);
    }
}

proof fn lemma_occurs_effects_skip(s: Seq<SpecEffect>, i: int, id: Id)
    requires
        0 <= i <= s.len(),
        forall|j: int| 0 <= j < i ==> !occurs(id, s[j].input) && !occurs(id, s[j].output),
    ensures
        occurs_effects(id, s) == occurs_effects(id, s.subrange(i, s.len() as int)),
    decreases i,
{
    if i > 0 {
        let s1 = s.subrange(1, s.len() as int);
        assert forall|j: int| 0 <= j < i - 1 implies !occurs(id, s1[j].input) && !occurs(id, s1[j].output) by {
            assert(s1[j] == s[j + 1]);
        }
        lemma_occurs_effects_skip(s1, i - 1, id);
        assert(s1.subrange(i - 1, s1.len() as int) =~= s.subrange(i, s.len() as int));
    } else {
        assert(s.subrange(0, s.len() as int) =~= s);
    }
}

proof fn lemma_occurs_exprs_skip(s: Seq<SpecEffectExpr>, i: int, id: Id)
    requires
        0 <= i <= s.len(),
        forall|j: int| 0 <= j < i ==> !occurs_expr(id, s[j]),
    ensures
        occurs_exprs(id, s) == occurs_exprs(id, s.subrange(i, s.len() as int)),
    decreases i,
{
    if i > 0 {
        let s1 = s.subrange(1, s.len() as int);
        assert forall|j: int| 0 <= j < i - 1 implies !occurs_expr(id, s1[j]) by {
            assert(s1[j] == s[j + 1]);
        }
        lemma_occurs_exprs_skip(s1, i - 1, id);
        assert(s1.subrange(i - 1, s1.len() as int) =~= s.subrange(i, s.len() as int));
    } else {
        assert(s.subrange(0, s.len() as int) =~= s);
    }
}

proof fn lemma_monotype_types_skip(s: Seq<SpecType>, i: int)
    requires
        0 <= i <= s.len(),
        forall|j: int| 0 <= j < i ==> monotype(s[j]),
    ensures
        monotype_types(s) == monotype_types(s.subrange(i, s.len() as int)),
    decreases i,
{
    if i > 0 {
        let s1 = s.subrange(1, s.len() as int);
        assert forall|j: int| 0 <= j < i - 1 implies monotype(s1[j]) by {
            assert(s1[j] == s[j + 1]);
        }
        lemma_monotype_types_skip(s1, i - 1);
        assert(s1.subrange(i - 1, s1.len() as int) =~= s.subrange(i, s.len() as int));
    } else {
        assert(s.subrange(0, s.len() as int) =~= s);
    }
}

proof fn lemma_monotype_effects_skip(s: Seq<SpecEffect>, i: int)
    requires
        0 <= i <= s.len(),
        forall|j: int| 0 <= j < i ==> monotype(s[j].input) && monotype(s[j].output),
    ensures
        monotype_effects(s) == monotype_effects(s.subrange(i, s.len() as int)),
    decreases i,
{
    if i > 0 {
        let s1 = s.subrange(1, s.len() as int);
        assert forall|j: int| 0 <= j < i - 1 implies monotype(s1[j].input) && monotype(s1[j].output) by {
            assert(s1[j] == s[j + 1]);
        }
        lemma_monotype_effects_skip(s1, i - 1);
        assert(s1.subrange(i - 1, s1.len() as int) =~= s.subrange(i, s.len() as int));
    } else {
        assert(s.subrange(0, s.len() as int) =~= s);
    }
}

proof fn lemma_monotype_exprs_skip(s: Seq<SpecEffectExpr>, i: int)
    requires
        0 <= i <= s.len(),
        forall|j: int| 0 <= j < i ==> monotype_expr(s[j]),
    ensures
        monotype_exprs(s) == monotype_exprs(s.subrange(i, s.len() as int)),
    decreases i,
{
    if i > 0 {
        let s1 = s.subrange(1, s.len() as int);
        assert forall|j: int| 0 <= j < i - 1 implies monotype_expr(s1[j]) by {
            assert(s1[j] == s[j + 1]);
        }
        lemma_monotype_exprs_skip(s1, i - 1);
        assert(s1.subrange(i - 1, s1.len() as int) =~= s.subrange(i, s.len() as int));
    } else {
        assert(s.subrange(0, s.len() as int) =~= s);
    }
}

fn occurs_in_types(id: &Id, v: &Vec<Type>) -> (r: bool)
    ensures
        r == occurs_types(*id, types_view(v@)),
    decreases v, 0nat,
{
    let ghost s = types_view(v@);
    let mut i: usize = 0;
    while i < v.len()
        invariant
            i <= v.len(),
            s == types_view(v@),
            forall|j: int| 0 <= j < i ==> !occurs(*id, s[j]),
        decreases v.len() - i,
    {
        proof { vstd::std_specs::vec::axiom_vec_index_decreases(*v, i as int); }
        if occurs_in(id, &v[i]) {
            proof {
                lemma_occurs_types_skip(s, i as int, *id);
                assert(s.subrange(i as int, s.len() as int)[0] == s[i as int]);
            }
            return true;
        }
        i += 1;
    }
    proof { lemma_occurs_types_skip(s, i as int, *id); }
    false
}

fn monotype_types_exec(v: &Vec<Type>) -> (r: bool)
    ensures
        r == monotype_types(types_view(v@)),
    decreases v, 0nat,
{
    let ghost s = types_view(v@);
    let mut i: usize = 0;
    while i < v.len()
        invariant
            i <= v.len(),
            s == types_view(v@),
            forall|j: int| 0 <= j < i ==> monotype(s[j]),
        decreases v.len() - i,
    {
        proof { vstd::std_specs::vec::axiom_vec_index_decreases(*v, i as int); }
        if !is_monotype(&v[i]) {
            proof {
                lemma_monotype_types_skip(s, i as int);
                assert(s.subrange(i as int, s.len() as int)[0] == s[i as int]);
            }
            return false;
        }
        i += 1;
    }
    proof { lemma_monotype_types_skip(s, i as int); }
    true
}

/// Whether `Existential(id)` occurs in `ty`.
pub fn occurs_in(id: &Id, ty: &Type) -> (r: bool)
    ensures
        r == occurs(*id, ty@),
    decreases ty, 1nat,
{
    match ty {
        Type::Existential(x) => *x == *id,
        Type::Product(v) => {
            proof {
                assert(decreases_to!(*ty => ty->Product_0));
                lemma_view_product(*v);
            }
            occurs_in_types(id, v)
        },
        Type::Sum(v) => {
            proof {
                assert(decreases_to!(*ty => ty->Sum_0));
                lemma_view_product(*v);
            }
            occurs_in_types(id, v)
        },
        Type::Function { parameter, body } => occurs_in(id, parameter) || occurs_in(id, body),
        Type::Array(x) => occurs_in(id, x),
        Type::SetOf(x) => occurs_in(id, x),
        Type::ForAll { variable: _, body } => occurs_in(id, body),
        Type::Effectful { ty: inner, effects } => occurs_in(id, inner) || occurs_in_expr(id, effects),
        Type::Brand { brand: _, item } => occurs_in(id, item),
        Type::Label { label: _, item } => occurs_in(id, item),
        _ => false,
    }
}

/// Whether `Existential(id)` occurs in a type of `e`.
pub fn occurs_in_expr(id: &Id, e: &EffectExpr) -> (r: bool)
    ensures
        r == occurs_expr(*id, e@),
    decreases e, 1nat,
{
    match e {
        EffectExpr::Effects(v) => {
            proof {
                assert(decreases_to!(*e => e->Effects_0));
                lemma_view_effects(*v);
            }
            let ghost s = effects_view(v@);
            let mut i: usize = 0;
            while i < v.len()
                invariant
                    i <= v.len(),
                    *e == EffectExpr::Effects(*v),
                    e@ == SpecEffectExpr::Effects(s),
                    s == effects_view(v@),
                    forall|j: int| 0 <= j < i ==> !occurs(*id, s[j].input) && !occurs(*id, s[j].output),
                decreases v.len() - i,
            {
                proof {
                    vstd::std_specs::vec::axiom_vec_index_decreases(*v, i as int);
                    assert(decreases_to!(*e => e->Effects_0));
                }
                if occurs_in(id, &v[i].input) || occurs_in(id, &v[i].output) {
                    proof {
                        lemma_occurs_effects_skip(s, i as int, *id);
                        assert(s.subrange(i as int, s.len() as int)[0] == s[i as int]);
                    }
                    return true;
                }
                i += 1;
            }
            proof { lemma_occurs_effects_skip(s, i as int, *id); }
            false
        },
        EffectExpr::Add(v) => {
            proof {
                assert(decreases_to!(*e => e->Add_0));
                lemma_view_add(*v);
            }
            let ghost s = exprs_view(v@);
            let mut i: usize = 0;
            while i < v.len()
                invariant
                    i <= v.len(),
                    *e == EffectExpr::Add(*v),
                    e@ == SpecEffectExpr::Add(s),
                    s == exprs_view(v@),
                    forall|j: int| 0 <= j < i ==> !occurs_expr(*id, s[j]),
                decreases v.len() - i,
            {
                proof {
                    vstd::std_specs::vec::axiom_vec_index_decreases(*v, i as int);
                    assert(decreases_to!(*e => e->Add_0));
                }
                if occurs_in_expr(id, &v[i]) {
                    proof {
                        lemma_occurs_exprs_skip(s, i as int, *id);
                        assert(s.subrange(i as int, s.len() as int)[0] == s[i as int]);
                    }
                    return true;
                }
                i += 1;
            }
            proof { lemma_occurs_exprs_skip(s, i as int, *id); }
            false
        },
        EffectExpr::Sub { minuend, subtrahend } => occurs_in_expr(id, minuend) || occurs_in_expr(id, subtrahend),
        EffectExpr::Apply { function, arguments } => {
            proof {
                assert(decreases_to!(*e => e->arguments));
                lemma_view_apply(*function, *arguments);
            }
            occurs_in(id, function) || occurs_in_types(id, arguments)
        },
    }
}

/// Whether no quantifier occurs in `ty`.
pub fn is_monotype(ty: &Type) -> (r: bool)
    ensures
        r == monotype(ty@),
    decreases ty, 1nat,
{
    match ty {
        Type::ForAll { .. } => false,
        Type::Product(v) => {
            proof {
                assert(decreases_to!(*ty => ty->Product_0));
                lemma_view_product(*v);
            }
            monotype_types_exec(v)
        },
        Type::Sum(v) => {
            proof {
                assert(decreases_to!(*ty => ty->Sum_0));
                lemma_view_product(*v);
            }
            monotype_types_exec(v)
        },
        Type::Function { parameter, body } => is_monotype(parameter) && is_monotype(body),
        Type::Array(x) => is_monotype(x),
        Type::SetOf(x) => is_monotype(x),
        Type::Effectful { ty: inner, effects } => is_monotype(inner) && is_monotype_expr(effects),
        Type::Brand { brand: _, item } => is_monotype(item),
        Type::Label { label: _, item } => is_monotype(item),
        _ => true,
    }
}

fn is_monotype_expr(e: &EffectExpr) -> (r: bool)
    ensures
        r == monotype_expr(e@),
    decreases e, 1nat,
{
    match e {
        EffectExpr::Effects(v) => {
            proof {
                assert(decreases_to!(*e => e->Effects_0));
                lemma_view_effects(*v);
            }
            let ghost s = effects_view(v@);
            let mut i: usize = 0;
            while i < v.len()
                invariant
                    i <= v.len(),
                    *e == EffectExpr::Effects(*v),
                    e@ == SpecEffectExpr::Effects(s),
                    s == effects_view(v@),
                    forall|j: int| 0 <= j < i ==> monotype(s[j].input) && monotype(s[j].output),
                decreases v.len() - i,
            {
                proof {
                    vstd::std_specs::vec::axiom_vec_index_decreases(*v, i as int);
                    assert(decreases_to!(*e => e->Effects_0));
                }
                if !(is_monotype(&v[i].input) && is_monotype(&v[i].output)) {
                    proof {
                        lemma_monotype_effects_skip(s, i as int);
                        assert(s.subrange(i as int, s.len() as int)[0] == s[i as int]);
                    }
                    return false;
                }
                i += 1;
            }
            proof { lemma_monotype_effects_skip(s, i as int); }
            true
        },
        EffectExpr::Add(v) => {
            proof {
                assert(decreases_to!(*e => e->Add_0));
                lemma_view_add(*v);
            }
            let ghost s = exprs_view(v@);
            let mut i: usize = 0;
            while i < v.len()
                invariant
                    i <= v.len(),
                    *e == EffectExpr::Add(*v),
                    e@ == SpecEffectExpr::Add(s),
                    s == exprs_view(v@),
                    forall|j: int| 0 <= j < i ==> monotype_expr(s[j]),
                decreases v.len() - i,
            {
                proof {
                    vstd::std_specs::vec::axiom_vec_index_decreases(*v, i as int);
                    assert(decreases_to!(*e => e->Add_0));
                }
                if !is_monotype_expr(&v[i]) {
                    proof {
                        lemma_monotype_exprs_skip(s, i as int);
                        assert(s.subrange(i as int, s.len() as int)[0] == s[i as int]);
                    }
                    return false;
                }
                i += 1;
            }
            proof { lemma_monotype_exprs_skip(s, i as int); }
            true
        },
        EffectExpr::Sub { minuend, subtrahend } => is_monotype_expr(minuend) && is_monotype_expr(subtrahend),
        EffectExpr::Apply { function, arguments } => {
            proof {
                assert(decreases_to!(*e => e->arguments));
                lemma_view_apply(*function, *arguments);
            }
            is_monotype(function) && monotype_types_exec(arguments)
        },
    }
}

} // verus!
