//! Simplification of effect expressions and of the effect expressions in
//! types.
//!
//! Simplification reduces effect applications by substitution. Such a
//! reduction need not terminate, so every function here carries a depth
//! bound; the public functions start from [`SIMPLIFY_DEPTH`], far beyond any
//! depth that a computation can reach.
use vstd::prelude::*;

use crate::sorted::{canonical, lemma_canonical, lemma_canonical_of_same_elements, same_elements, sort_dedup, strictly_sorted, views, Ordered};
use crate::substitute::{subst_type, substitute};
use crate::ty::{
    effects_view, exprs_view, lemma_view_add, lemma_view_apply, lemma_view_effects,
    lemma_view_product, types_view, Effect, EffectExpr, SpecEffect, SpecEffectExpr, SpecType, Type,
};

verus! {

/// The depth bound from which [`simplify`] and [`simplify_effect_expr`] start.
pub const SIMPLIFY_DEPTH: u64 = 0xffff_ffff_ffff_ffff;

/// An effect expression that denotes no effect by its form: an empty list
/// or an empty sum.
pub open spec fn expr_is_empty(e: SpecEffectExpr) -> bool {
    match e {
        SpecEffectExpr::Effects(s) => s.len() == 0,
        SpecEffectExpr::Add(s) => s.len() == 0,
        _ => false,
    }
}

/// The expressions of `s` that are not effect lists, in order.
pub open spec fn non_lists(s: Seq<SpecEffectExpr>) -> Seq<SpecEffectExpr>
    decreases s.len(),
{
    if s.len() == 0 {
        seq![]
    } else if s.last() is Effects {
        non_lists(s.drop_last())
    } else {
        non_lists(s.drop_last()).push(s.last())
    }
}

/// The effects of the effect lists of `s`, concatenated in order.
pub open spec fn listed_effects(s: Seq<SpecEffectExpr>) -> Seq<SpecEffect>
    decreases s.len(),
{
    if s.len() == 0 {
        seq![]
    } else if s.last() is Effects {
        listed_effects(s.drop_last()) + s.last()->Effects_0
    } else {
        listed_effects(s.drop_last())
    }
}

/// The expressions of `s` that are not empty by [`expr_is_empty`], in order.
pub open spec fn non_empty(s: Seq<SpecEffectExpr>) -> Seq<SpecEffectExpr>
    decreases s.len(),
{
    if s.len() == 0 {
        seq![]
    } else if expr_is_empty(s.last()) {
        non_empty(s.drop_last())
    } else {
        non_empty(s.drop_last()).push(s.last())
    }
}

/// The effects of `m` that do not occur in `s`, in order.
pub open spec fn effects_minus(m: Seq<SpecEffect>, s: Seq<SpecEffect>) -> Seq<SpecEffect>
    decreases m.len(),
{
    if m.len() == 0 {
        seq![]
    } else if s.contains(m.last()) {
        effects_minus(m.drop_last(), s)
    } else {
        effects_minus(m.drop_last(), s).push(m.last())
    }
}

/// Simplification of a type with depth bound `fuel`: effect expressions are
/// simplified, and an effectful type directly inside an effectful type is
/// merged into it.
pub open spec fn simp_type(t: SpecType, fuel: nat) -> SpecType
    decreases fuel, 0nat,
{
    if fuel == 0 {
        t
    } else {
        let f = (fuel - 1) as nat;
        match t {
            SpecType::Product(s) => SpecType::Product(simp_types(s, f)),
            SpecType::Sum(s) => SpecType::Sum(simp_types(s, f)),
            SpecType::Function { parameter, body } => SpecType::Function {
                parameter: Box::new(simp_type(*parameter, f)),
                body: Box::new(simp_type(*body, f)),
            },
            SpecType::Array(x) => SpecType::Array(Box::new(simp_type(*x, f))),
            SpecType::SetOf(x) => SpecType::SetOf(Box::new(simp_type(*x, f))),
            SpecType::ForAll { variable, body } => SpecType::ForAll { variable, body: Box::new(simp_type(*body, f)) },
            SpecType::Brand { brand, item } => SpecType::Brand { brand, item: Box::new(simp_type(*item, f)) },
            SpecType::Label { label, item } => SpecType::Label { label, item: Box::new(simp_type(*item, f)) },
            SpecType::Effectful { ty, effects } => {
                let t2 = simp_type(*ty, f);
                let e2 = simp_expr(effects, f);
                match t2 {
                    SpecType::Effectful { ty: inner, effects: inner_effects } => SpecType::Effectful {
                        ty: inner,
                        effects: simp_expr(SpecEffectExpr::Add(seq![e2, inner_effects]), f),
                    },
                    _ => SpecType::Effectful { ty: Box::new(t2), effects: e2 },
                }
            },
            _ => t,
        }
    }
}

/// Simplification of each type of `s`.
pub open spec fn simp_types(s: Seq<SpecType>, fuel: nat) -> Seq<SpecType>
    decreases fuel, s.len(),
{
    if s.len() == 0 {
        seq![]
    } else {
        simp_types(s.drop_last(), fuel).push(simp_type(s.last(), fuel))
    }
}

/// Simplification of the types of each effect of `s`.
pub open spec fn simp_effects(s: Seq<SpecEffect>, fuel: nat) -> Seq<SpecEffect>
    decreases fuel, s.len(),
{
    if s.len() == 0 {
        seq![]
    } else {
        simp_effects(s.drop_last(), fuel).push(
            SpecEffect { input: simp_type(s.last().input, fuel), output: simp_type(s.last().output, fuel) },
        )
    }
}

/// Simplification of each expression of `s`.
pub open spec fn simp_exprs(s: Seq<SpecEffectExpr>, fuel: nat) -> Seq<SpecEffectExpr>
    decreases fuel, s.len(),
{
    if s.len() == 0 {
        seq![]
    } else {
        simp_exprs(s.drop_last(), fuel).push(simp_expr(s.last(), fuel))
    }
}

/// Simplification of an effect expression with depth bound `fuel`.
pub open spec fn simp_expr(e: SpecEffectExpr, fuel: nat) -> SpecEffectExpr
    decreases fuel, 0nat,
{
    if fuel == 0 {
        e
    } else {
        let f = (fuel - 1) as nat;
        match e {
            SpecEffectExpr::Effects(s) => SpecEffectExpr::Effects(canonical::<Effect>(simp_effects(s, f))),
            SpecEffectExpr::Add(s) => {
                let xs = simp_exprs(s, f);
                let collected = simp_expr(SpecEffectExpr::Effects(listed_effects(xs)), f);
                let ws = canonical::<EffectExpr>(non_empty(non_lists(xs).push(collected)));
                if ws.len() == 1 { ws[0] } else { SpecEffectExpr::Add(ws) }
            },
            SpecEffectExpr::Sub { minuend, subtrahend } => {
                let m = simp_expr(*minuend, f);
                let s = simp_expr(*subtrahend, f);
                if m is Effects && s is Effects {
                    SpecEffectExpr::Effects(effects_minus(m->Effects_0, s->Effects_0))
                } else if expr_is_empty(m) || expr_is_empty(s) {
                    m
                } else {
                    SpecEffectExpr::Sub { minuend: Box::new(m), subtrahend: Box::new(s) }
                }
            },
            SpecEffectExpr::Apply { function, arguments } => {
                let (g, a) = apply_args(*function, arguments, f);
                if a.len() == 0 {
                    match g {
                        SpecType::Effectful { ty: _, effects } => effects,
                        _ => SpecEffectExpr::Effects(seq![]),
                    }
                } else {
                    SpecEffectExpr::Apply { function: Box::new(g), arguments: a }
                }
            },
        }
    }
}

/// Applies `function` to `arguments` one at a time with depth bound `fuel`:
/// a quantifier is dropped, a function whose parameter is a variable or an
/// existential has it replaced by the argument in its body, another
/// function gives its body. Stops when no argument is left or the function
/// is neither.
pub open spec fn apply_args(function: SpecType, arguments: Seq<SpecType>, fuel: nat) -> (SpecType, Seq<SpecType>)
    decreases fuel, 0nat,
{
    if fuel == 0 {
        (function, arguments)
    } else {
        let f = (fuel - 1) as nat;
        let g = simp_type(function, f);
        let a = simp_types(arguments, f);
        if a.len() == 0 {
            (g, a)
        } else {
            match g {
                SpecType::ForAll { variable: _, body } => apply_args(*body, a, f),
                SpecType::Function { parameter, body } => {
                    let rest = a.subrange(1, a.len() as int);
                    match *parameter {
                        SpecType::Variable(id) => apply_args(subst_type(*body, id, a[0]), rest, f),
                        SpecType::Existential(id) => apply_args(subst_type(*body, id, a[0]), rest, f),
                        _ => apply_args(*body, rest, f),
                    }
                },
                _ => (g, a),
            }
        }
    }
}

impl EffectExpr {
    /// Whether the expression is an empty list of effects or an empty sum.
    pub fn is_empty(&self) -> (r: bool)
        ensures
            r == expr_is_empty(self@),
    {
        proof {
            match self {
                EffectExpr::Effects(v) => lemma_view_effects(*v),
                EffectExpr::Add(v) => lemma_view_add(*v),
                _ => {},
            }
        }
        match self {
            EffectExpr::Effects(effects) => effects.len() == 0,
            EffectExpr::Add(effects) => effects.len() == 0,
            EffectExpr::Sub { .. } => false,
            EffectExpr::Apply { .. } => false,
        }
    }
}

fn simplify_types(v: &Vec<Type>, fuel: u64) -> (r: Vec<Type>)
    ensures
        types_view(r@) == simp_types(types_view(v@), fuel as nat),
    decreases fuel, 1nat,
{
    let ghost s = types_view(v@);
    let mut r: Vec<Type> = Vec::new();
    let mut i: usize = 0;
    while i < v.len()
        invariant
            i <= v.len(),
            s == types_view(v@),
            types_view(r@) == simp_types(s.take(i as int), fuel as nat),
        decreases v.len() - i,
    {
        let ghost before = types_view(r@);
        assert(s.take(i + 1).drop_last() =~= s.take(i as int));
        r.push(simplify_type_with(&v[i], fuel));
        assert(types_view(r@) =~= before.push(simp_type(s[i as int], fuel as nat)));
        i += 1;
    }
    assert(s.take(v.len() as int) =~= s);
    r
}

/// Simplifies a type with depth bound `fuel`.
pub fn simplify_type_with(t: &Type, fuel: u64) -> (r: Type)
    ensures
        r@ == simp_type(t@, fuel as nat),
    decreases fuel, 0nat,
{
    if fuel == 0 {
        return t.clone_type();
    }
    let f = fuel - 1;
    match t {
        Type::Product(v) => {
            let r = simplify_types(v, f);
            proof {
                assert(*t == Type::Product(*v));
                lemma_view_product(*v);
                lemma_view_product(r);
            }
            Type::Product(r)
        },
        Type::Sum(v) => {
            let r = simplify_types(v, f);
            proof {
                assert(*t == Type::Sum(*v));
                lemma_view_product(*v);
                lemma_view_product(r);
            }
            Type::Sum(r)
        },
        Type::Function { parameter, body } => Type::Function {
            parameter: Box::new(simplify_type_with(parameter, f)),
            body: Box::new(simplify_type_with(body, f)),
        },
        Type::Array(x) => Type::Array(Box::new(simplify_type_with(x, f))),
        Type::SetOf(x) => Type::SetOf(Box::new(simplify_type_with(x, f))),
        Type::ForAll { variable, body } => Type::ForAll {
            variable: *variable,
            body: Box::new(simplify_type_with(body, f)),
        },
        Type::Brand { brand, item } => Type::Brand {
            brand: brand.clone(),
            item: Box::new(simplify_type_with(item, f)),
        },
        Type::Label { label, item } => Type::Label {
            label: label.clone(),
            item: Box::new(simplify_type_with(item, f)),
        },
        Type::Effectful { ty, effects } => {
            let t2 = simplify_type_with(ty, f);
            let e2 = simplify_expr_with(effects, f);
            match t2 {
                Type::Effectful { ty: inner, effects: inner_effects } => {
                    let added = vec![e2, inner_effects];
                    proof {
                        lemma_view_add(added);
                        assert(exprs_view(added@) =~= seq![e2@, inner_effects@]);
                    }
                    let merged = simplify_expr_with(&EffectExpr::Add(added), f);
                    Type::Effectful { ty: inner, effects: merged }
                },
                other => Type::Effectful { ty: Box::new(other), effects: e2 },
            }
        },
        Type::Number => Type::Number,
        Type::String => Type::String,
        Type::Variable(id) => Type::Variable(*id),
        Type::Existential(id) => Type::Existential(*id),
        Type::Infer(id) => Type::Infer(*id),
    }
}

fn simplify_effects(v: &Vec<Effect>, fuel: u64) -> (r: Vec<Effect>)
    ensures
        effects_view(r@) == canonical::<Effect>(simp_effects(effects_view(v@), fuel as nat)),
    decreases fuel, 1nat,
{
    let ghost s = effects_view(v@);
    let mut m: Vec<Effect> = Vec::new();
    let mut i: usize = 0;
    while i < v.len()
        invariant
            i <= v.len(),
            s == effects_view(v@),
            effects_view(m@) == simp_effects(s.take(i as int), fuel as nat),
        decreases v.len() - i,
    {
        let ghost before = effects_view(m@);
        assert(s.take(i + 1).drop_last() =~= s.take(i as int));
        let e = &v[i];
        m.push(Effect { input: simplify_type_with(&e.input, fuel), output: simplify_type_with(&e.output, fuel) });
        assert(effects_view(m@) =~= before.push(SpecEffect { input: simp_type(s[i as int].input, fuel as nat), output: simp_type(s[i as int].output, fuel as nat) }));
        i += 1;
    }
    assert(s.take(v.len() as int) =~= s);
    assert(views(m@) =~= effects_view(m@));
    let r = sort_dedup(m);
    assert(effects_view(r@) =~= views(r@));
    r
}

fn simplify_exprs(v: &Vec<EffectExpr>, fuel: u64) -> (r: Vec<EffectExpr>)
    ensures
        exprs_view(r@) == simp_exprs(exprs_view(v@), fuel as nat),
    decreases fuel, 1nat,
{
    let ghost s = exprs_view(v@);
    let mut r: Vec<EffectExpr> = Vec::new();
    let mut i: usize = 0;
    while i < v.len()
        invariant
            i <= v.len(),
            s == exprs_view(v@),
            exprs_view(r@) == simp_exprs(s.take(i as int), fuel as nat),
        decreases v.len() - i,
    {
        let ghost before = exprs_view(r@);
        assert(s.take(i + 1).drop_last() =~= s.take(i as int));
        r.push(simplify_expr_with(&v[i], fuel));
        assert(exprs_view(r@) =~= before.push(simp_expr(s[i as int], fuel as nat)));
        i += 1;
    }
    assert(s.take(v.len() as int) =~= s);
    r
}

/// Splits summands into the effects of the lists, concatenated, and the
/// other summands.
fn split_lists(xs: &Vec<EffectExpr>) -> (r: (Vec<Effect>, Vec<EffectExpr>))
    ensures
        effects_view(r.0@) == listed_effects(exprs_view(xs@)),
        exprs_view(r.1@) == non_lists(exprs_view(xs@)),
{
    let ghost s = exprs_view(xs@);
    let mut rest: Vec<EffectExpr> = Vec::new();
    let mut collected: Vec<Effect> = Vec::new();
    let mut i: usize = 0;
    while i < xs.len()
        invariant
            i <= xs.len(),
            s == exprs_view(xs@),
            effects_view(collected@) == listed_effects(s.take(i as int)),
            exprs_view(rest@) == non_lists(s.take(i as int)),
        decreases xs.len() - i,
    {
        let ghost before_c = effects_view(collected@);
        let ghost before_r = exprs_view(rest@);
        assert(s.take(i + 1).drop_last() =~= s.take(i as int));
        assert(s.take(i + 1).last() == s[i as int]);
        match &xs[i] {
            EffectExpr::Effects(es) => {
                proof { lemma_view_effects(*es); }
                let mut c = crate::ty::clone_effects(es);
                collected.append(&mut c);
                assert(effects_view(collected@) =~= before_c + effects_view(es@));
            },
            other => {
                rest.push(other.clone_expr());
                assert(exprs_view(rest@) =~= before_r.push(s[i as int]));
            },
        }
        i += 1;
    }
    assert(s.take(xs.len() as int) =~= s);
    (collected, rest)
}

/// The summands that are not empty, in order.
fn keep_non_empty(xs: Vec<EffectExpr>) -> (r: Vec<EffectExpr>)
    ensures
        exprs_view(r@) == non_empty(exprs_view(xs@)),
{
    let ghost s = exprs_view(xs@);
    let mut r: Vec<EffectExpr> = Vec::new();
    let mut i: usize = 0;
    while i < xs.len()
        invariant
            i <= xs.len(),
            s == exprs_view(xs@),
            exprs_view(r@) == non_empty(s.take(i as int)),
        decreases xs.len() - i,
    {
        let ghost before = exprs_view(r@);
        assert(s.take(i + 1).drop_last() =~= s.take(i as int));
        assert(s.take(i + 1).last() == s[i as int]);
        if !xs[i].is_empty() {
            r.push(xs[i].clone_expr());
            assert(exprs_view(r@) =~= before.push(s[i as int]));
        }
        i += 1;
    }
    assert(s.take(xs.len() as int) =~= s);
    r
}

fn contains_effect(s: &Vec<Effect>, e: &Effect) -> (r: bool)
    ensures
        r == effects_view(s@).contains(e@),
{
    let mut i: usize = 0;
    while i < s.len()
        invariant
            i <= s.len(),
            forall|j: int| 0 <= j < i ==> s@[j]@ != e@,
        decreases s.len() - i,
    {
        if s[i] == *e {
            assert(effects_view(s@)[i as int] == e@);
            return true;
        }
        i += 1;
    }
    proof {
        if effects_view(s@).contains(e@) {
            let k = choose|k: int| 0 <= k < effects_view(s@).len() && effects_view(s@)[k] == e@;
            assert(s@[k]@ == e@);
        }
    }
    false
}

/// The effects of `m` that are not in `s`, in order.
fn minus_effects(m: &Vec<Effect>, s: &Vec<Effect>) -> (r: Vec<Effect>)
    ensures
        effects_view(r@) == effects_minus(effects_view(m@), effects_view(s@)),
{
    let ghost x = effects_view(m@);
    let mut r: Vec<Effect> = Vec::new();
    let mut i: usize = 0;
    while i < m.len()
        invariant
            i <= m.len(),
            x == effects_view(m@),
            effects_view(r@) == effects_minus(x.take(i as int), effects_view(s@)),
        decreases m.len() - i,
    {
        let ghost before = effects_view(r@);
        assert(x.take(i + 1).drop_last() =~= x.take(i as int));
        assert(x.take(i + 1).last() == x[i as int]);
        if !contains_effect(s, &m[i]) {
            r.push(m[i].clone_effect());
            assert(effects_view(r@) =~= before.push(x[i as int]));
        }
        i += 1;
    }
    assert(x.take(m.len() as int) =~= x);
    r
}

/// Applies a function type to arguments as [`apply_args`] does.
fn apply_args_with(function: &Type, arguments: &Vec<Type>, fuel: u64) -> (r: (Type, Vec<Type>))
    ensures
        (r.0@, types_view(r.1@)) == apply_args(function@, types_view(arguments@), fuel as nat),
    decreases fuel, 2nat,
{
    if fuel == 0 {
        return (function.clone_type(), crate::ty::clone_types(arguments));
    }
    let f = fuel - 1;
    let g = simplify_type_with(function, f);
    let a = simplify_types(arguments, f);
    let ghost av = types_view(a@);
    if a.len() == 0 {
        return (g, a);
    }
    let ghost gv = g@;
    assert(apply_args(function@, types_view(arguments@), fuel as nat) == match gv {
        SpecType::ForAll { variable: _, body } => apply_args(*body, av, f as nat),
        SpecType::Function { parameter, body } => {
            let rest = av.subrange(1, av.len() as int);
            match *parameter {
                SpecType::Variable(id) => apply_args(subst_type(*body, id, av[0]), rest, f as nat),
                SpecType::Existential(id) => apply_args(subst_type(*body, id, av[0]), rest, f as nat),
                _ => apply_args(*body, rest, f as nat),
            }
        },
        _ => (gv, av),
    });
    match g {
        Type::ForAll { variable: _, body } => {
            let r = apply_args_with(&body, &a, f);
            assert((r.0@, types_view(r.1@)) == apply_args(function@, types_view(arguments@), fuel as nat));
            r
        },
        Type::Function { parameter, body } => {
            let mut a = a;
            let popped = a.remove(0);
            assert(types_view(a@) =~= av.subrange(1, av.len() as int));
            assert(popped@ == av[0]);
            match &*parameter {
                Type::Variable(id) => {
                    assert(parameter@ == SpecType::Variable(*id));
                    assert(*gv->Function_parameter == parameter@);
                    assert(*gv->Function_body == body@);
                    let r = apply_args_with(&substitute(&body, id, &popped), &a, f);
                    assert((r.0@, types_view(r.1@)) == apply_args(function@, types_view(arguments@), fuel as nat));
                    r
                },
                Type::Existential(id) => apply_args_with(&substitute(&body, id, &popped), &a, f),
                _ => apply_args_with(&body, &a, f),
            }
        },
        other => {
            assert((other@, types_view(a@)) == apply_args(function@, types_view(arguments@), fuel as nat));
            (other, a)
        },
    }
}

/// Simplifies an effect expression with depth bound `fuel`.
pub fn simplify_expr_with(e: &EffectExpr, fuel: u64) -> (r: EffectExpr)
    ensures
        r@ == simp_expr(e@, fuel as nat),
    decreases fuel, 0nat,
{
    if fuel == 0 {
        return e.clone_expr();
    }
    let f = fuel - 1;
    match e {
        EffectExpr::Effects(v) => {
            let r = simplify_effects(v, f);
            proof {
                assert(*e == EffectExpr::Effects(*v));
                lemma_view_effects(*v);
                lemma_view_effects(r);
            }
            EffectExpr::Effects(r)
        },
        EffectExpr::Add(v) => {
            proof {
                assert(*e == EffectExpr::Add(*v));
                lemma_view_add(*v);
            }
            let xs = simplify_exprs(v, f);
            let (collected, mut others) = split_lists(&xs);
            proof { lemma_view_effects(collected); }
            let c = simplify_expr_with(&EffectExpr::Effects(collected), f);
            let ghost before = exprs_view(others@);
            others.push(c);
            assert(exprs_view(others@) =~= before.push(c@));
            let kept = keep_non_empty(others);
            let mut ws = sort_dedup(kept);
            assert(exprs_view(ws@) =~= views(ws@));
            assert(exprs_view(kept@) =~= views(kept@));
            if ws.len() == 1 {
                let w = ws.pop().unwrap();
                assert(w@ == views(ws@.push(w))[0]);
                w
            } else {
                proof { lemma_view_add(ws); }
                EffectExpr::Add(ws)
            }
        },
        EffectExpr::Sub { minuend, subtrahend } => {
            let m = simplify_expr_with(minuend, f);
            let s = simplify_expr_with(subtrahend, f);
            if let EffectExpr::Effects(me) = &m {
                if let EffectExpr::Effects(se) = &s {
                    proof {
                        lemma_view_effects(*me);
                        lemma_view_effects(*se);
                    }
                    let r = minus_effects(me, se);
                    proof { lemma_view_effects(r); }
                    return EffectExpr::Effects(r);
                }
            }
            if m.is_empty() || s.is_empty() {
                m
            } else {
                EffectExpr::Sub { minuend: Box::new(m), subtrahend: Box::new(s) }
            }
        },
        EffectExpr::Apply { function, arguments } => {
            proof {
                assert(*e == (EffectExpr::Apply { function: *function, arguments: *arguments }));
                lemma_view_apply(*function, *arguments);
            }
            let (g, a) = apply_args_with(function, arguments, f);
            if a.len() == 0 {
                match g {
                    Type::Effectful { ty: _, effects } => effects,
                    _ => {
                        let empty: Vec<Effect> = Vec::new();
                        proof {
                            lemma_view_effects(empty);
                            assert(effects_view(empty@) =~= Seq::<SpecEffect>::empty());
                        }
                        EffectExpr::Effects(empty)
                    },
                }
            } else {
                let g = Box::new(g);
                proof { lemma_view_apply(g, a); }
                EffectExpr::Apply { function: g, arguments: a }
            }
        },
    }
}

/// Simplifies the effect expressions in `ty`, merging nested effectful types.
pub fn simplify(ty: &mut Type)
    ensures
        final(ty)@ == simp_type(old(ty)@, SIMPLIFY_DEPTH as nat),
{
    let r = simplify_type_with(ty, SIMPLIFY_DEPTH);
    *ty = r;
}

/// Simplifies an effect expression: lists of effects are sorted without
/// duplicates, sums are flattened into one list beside the other summands,
/// differences of lists are computed, and applications are reduced.
pub fn simplify_effect_expr(expr: &mut EffectExpr)
    ensures
        final(expr)@ == simp_expr(old(expr)@, SIMPLIFY_DEPTH as nat),
{
    let r = simplify_expr_with(expr, SIMPLIFY_DEPTH);
    *expr = r;
}

/// The type has no effectful part anywhere in it.
pub open spec fn pure_type(t: SpecType) -> bool
    decreases t, 0nat,
{
    match t {
        SpecType::Product(s) => pure_types(s),
        SpecType::Sum(s) => pure_types(s),
        SpecType::Function { parameter, body } => pure_type(*parameter) && pure_type(*body),
        SpecType::Array(x) => pure_type(*x),
        SpecType::SetOf(x) => pure_type(*x),
        SpecType::ForAll { variable: _, body } => pure_type(*body),
        SpecType::Brand { brand: _, item } => pure_type(*item),
        SpecType::Label { label: _, item } => pure_type(*item),
        SpecType::Effectful { .. } => false,
        _ => true,
    }
}

pub open spec fn pure_types(s: Seq<SpecType>) -> bool
    decreases s, s.len(),
{
    if s.len() == 0 { true } else { pure_types(s.drop_last()) && pure_type(s.last()) }
}

/// Every effect of `s` has pure input and output types.
pub open spec fn pure_effects(s: Seq<SpecEffect>) -> bool {
    forall|i: int| 0 <= i < s.len() ==> pure_type(#[trigger] s[i].input) && pure_type(s[i].output)
}

proof fn lemma_simp_type_pure(t: SpecType, fuel: nat)
    requires
        pure_type(t),
    ensures
        simp_type(t, fuel) == t,
    decreases fuel, 0nat,
{
    if fuel > 0 {
        let f = (fuel - 1) as nat;
        match t {
            SpecType::Product(s) => lemma_simp_types_pure(s, f),
            SpecType::Sum(s) => lemma_simp_types_pure(s, f),
            SpecType::Function { parameter, body } => {
                lemma_simp_type_pure(*parameter, f);
                lemma_simp_type_pure(*body, f);
            },
            SpecType::Array(x) => lemma_simp_type_pure(*x, f),
            SpecType::SetOf(x) => lemma_simp_type_pure(*x, f),
            SpecType::ForAll { variable: _, body } => lemma_simp_type_pure(*body, f),
            SpecType::Brand { brand: _, item } => lemma_simp_type_pure(*item, f),
            SpecType::Label { label: _, item } => lemma_simp_type_pure(*item, f),
            _ => {},
        }
    }
}

proof fn lemma_simp_types_pure(s: Seq<SpecType>, fuel: nat)
    requires
        pure_types(s),
    ensures
        simp_types(s, fuel) == s,
    decreases fuel, s.len(),
{
    if s.len() > 0 {
        lemma_simp_types_pure(s.drop_last(), fuel);
        lemma_simp_type_pure(s.last(), fuel);
        assert(s.drop_last().push(s.last()) =~= s);
    }
}

pub proof fn lemma_simp_effects_pure(s: Seq<SpecEffect>, fuel: nat)
    requires
        pure_effects(s),
    ensures
        simp_effects(s, fuel) == s,
    decreases s.len(),
{
    if s.len() > 0 {
        let s0 = s.drop_last();
        assert forall|i: int| 0 <= i < s0.len() implies pure_type(#[trigger] s0[i].input) && pure_type(s0[i].output) by {
            assert(s0[i] == s[i]);
        }
        lemma_simp_effects_pure(s0, fuel);
        assert(pure_type(s[s.len() - 1].input));
        lemma_simp_type_pure(s.last().input, fuel);
        lemma_simp_type_pure(s.last().output, fuel);
        assert(s0.push(s.last()) =~= s);
    }
}

/// A type with no effectful part is left as it is by simplification.
pub proof fn law_simplify_keeps_pure_types(t: SpecType)
    requires
        pure_type(t),
    ensures
        simp_type(t, SIMPLIFY_DEPTH as nat) == t,
{
    lemma_simp_type_pure(t, SIMPLIFY_DEPTH as nat);
}

/// A simplified list of effects is strictly sorted and holds the same
/// effects as the list with its types simplified.
pub proof fn law_simplified_effects_sorted(s: Seq<SpecEffect>, fuel: nat)
    requires
        fuel > 0,
    ensures
        simp_expr(SpecEffectExpr::Effects(s), fuel) is Effects,
        strictly_sorted::<Effect>(simp_expr(SpecEffectExpr::Effects(s), fuel)->Effects_0),
        same_elements(simp_expr(SpecEffectExpr::Effects(s), fuel)->Effects_0, simp_effects(s, (fuel - 1) as nat)),
{
    lemma_canonical::<Effect>(simp_effects(s, (fuel - 1) as nat));
}

/// Simplifying a list of effects whose types have no effectful part a
/// second time changes nothing.
pub proof fn law_simplify_effects_twice(s: Seq<SpecEffect>)
    requires
        pure_effects(s),
    ensures
        simp_expr(simp_expr(SpecEffectExpr::Effects(s), SIMPLIFY_DEPTH as nat), SIMPLIFY_DEPTH as nat)
            == simp_expr(SpecEffectExpr::Effects(s), SIMPLIFY_DEPTH as nat),
{
    let f = (SIMPLIFY_DEPTH - 1) as nat;
    lemma_simp_effects_pure(s, f);
    let c = canonical::<Effect>(s);
    lemma_canonical::<Effect>(s);
    assert forall|i: int| 0 <= i < c.len() implies pure_type(#[trigger] c[i].input) && pure_type(c[i].output) by {
        assert(c.contains(c[i]));
        assert(s.contains(c[i]));
        let j = choose|j: int| 0 <= j < s.len() && s[j] == c[i];
        assert(pure_type(s[j].input));
    }
    lemma_simp_effects_pure(c, f);
    lemma_canonical_of_same_elements::<Effect>(c, c);
}

} // verus!
