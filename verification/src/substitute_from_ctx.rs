//! Replacing the solved existentials, the typed variables and the inferred
//! holes of a type by what a context records for them.
use vstd::prelude::*;

use crate::ctx::{solved_of, typed_var_of, Ctx, SpecCtx};
use crate::ty::{
    effects_view, exprs_view, lemma_view_add, lemma_view_apply, lemma_view_effects,
    lemma_view_product, types_view, Effect, EffectExpr, SpecEffect, SpecEffectExpr, SpecType, Type,
};

verus! {

broadcast use vstd::std_specs::hash::group_hash_axioms;

/// `t` with each solved existential replaced by its solution, each typed
/// variable by its type and each inferred hole by the type inferred for it.
/// A replacement is not itself rewritten again.
pub open spec fn ctx_subst_type(c: SpecCtx, t: SpecType) -> SpecType
    decreases t,
{
    match t {
        SpecType::Existential(id) => match solved_of(c.logs, id) {
            Some(s) => s,
            None => t,
        },
        SpecType::Variable(id) => match typed_var_of(c.logs, id) {
            Some(s) => s,
            None => t,
        },
        SpecType::Infer(id) => if c.inferred_types.contains_key(id) { c.inferred_types[id] } else { t },
        SpecType::Product(s) => SpecType::Product(
            Seq::new(s.len(), |i: int| if 0 <= i < s.len() { ctx_subst_type(c, s[i]) } else { SpecType::Number }),
        ),
        SpecType::Sum(s) => SpecType::Sum(
            Seq::new(s.len(), |i: int| if 0 <= i < s.len() { ctx_subst_type(c, s[i]) } else { SpecType::Number }),
        ),
        SpecType::Function { parameter, body } => SpecType::Function {
            parameter: Box::new(ctx_subst_type(c, *parameter)),
            body: Box::new(ctx_subst_type(c, *body)),
        },
        SpecType::Array(x) => SpecType::Array(Box::new(ctx_subst_type(c, *x))),
        SpecType::SetOf(x) => SpecType::SetOf(Box::new(ctx_subst_type(c, *x))),
        SpecType::ForAll { variable, body } => SpecType::ForAll {
            variable,
            body: Box::new(ctx_subst_type(c, *body)),
        },
        SpecType::Effectful { ty, effects } => SpecType::Effectful {
            ty: Box::new(ctx_subst_type(c, *ty)),
            effects: ctx_subst_expr(c, effects),
        },
        SpecType::Brand { brand, item } => SpecType::Brand { brand, item: Box::new(ctx_subst_type(c, *item)) },
        SpecType::Label { label, item } => SpecType::Label { label, item: Box::new(ctx_subst_type(c, *item)) },
        _ => t,
    }
}

pub open spec fn ctx_subst_effect(c: SpecCtx, e: SpecEffect) -> SpecEffect
    decreases e,
{
    SpecEffect { input: ctx_subst_type(c, e.input), output: ctx_subst_type(c, e.output) }
}

/// The replacement of [`ctx_subst_type`] in every type of an effect expression.
pub open spec fn ctx_subst_expr(c: SpecCtx, e: SpecEffectExpr) -> SpecEffectExpr
    decreases e,
{
    match e {
        SpecEffectExpr::Effects(s) => SpecEffectExpr::Effects(
            Seq::new(s.len(), |i: int| if 0 <= i < s.len() { ctx_subst_effect(c, s[i]) } else { s[0] }),
        ),
        SpecEffectExpr::Add(s) => SpecEffectExpr::Add(
            Seq::new(s.len(), |i: int| if 0 <= i < s.len() { ctx_subst_expr(c, s[i]) } else { s[0] }),
        ),
        SpecEffectExpr::Sub { minuend, subtrahend } => SpecEffectExpr::Sub {
            minuend: Box::new(ctx_subst_expr(c, *minuend)),
            subtrahend: Box::new(ctx_subst_expr(c, *subtrahend)),
        },
        SpecEffectExpr::Apply { function, arguments } => SpecEffectExpr::Apply {
            function: Box::new(ctx_subst_type(c, *function)),
            arguments: Seq::new(arguments.len(), |i: int| if 0 <= i < arguments.len() { ctx_subst_type(c, arguments[i]) } else { SpecType::Number }),
        },
    }
}

pub open spec fn ctx_subst_types(c: SpecCtx, s: Seq<SpecType>) -> Seq<SpecType> {
    Seq::new(s.len(), |i: int| ctx_subst_type(c, s[i]))
}

pub open spec fn ctx_subst_effects(c: SpecCtx, s: Seq<SpecEffect>) -> Seq<SpecEffect> {
    Seq::new(s.len(), |i: int| ctx_subst_effect(c, s[i]))
}

pub open spec fn ctx_subst_exprs(c: SpecCtx, s: Seq<SpecEffectExpr>) -> Seq<SpecEffectExpr> {
    Seq::new(s.len(), |i: int| ctx_subst_expr(c, s[i]))
}

proof fn lemma_ctx_subst_unfold(c: SpecCtx, t: SpecType, e: SpecEffectExpr)
    ensures
        t is Product ==> ctx_subst_type(c, t) == SpecType::Product(ctx_subst_types(c, t->Product_0)),
        t is Sum ==> ctx_subst_type(c, t) == SpecType::Sum(ctx_subst_types(c, t->Sum_0)),
        e is Effects ==> ctx_subst_expr(c, e) == SpecEffectExpr::Effects(ctx_subst_effects(c, e->Effects_0)),
        e is Add ==> ctx_subst_expr(c, e) == SpecEffectExpr::Add(ctx_subst_exprs(c, e->Add_0)),
        e is Apply ==> ctx_subst_expr(c, e) == (SpecEffectExpr::Apply {
            function: Box::new(ctx_subst_type(c, *e->function)),
            arguments: ctx_subst_types(c, e->arguments),
        }),
{
    if t is Product {
        assert(ctx_subst_type(c, t)->Product_0 =~= ctx_subst_types(c, t->Product_0));
    }
    if t is Sum {
        assert(ctx_subst_type(c, t)->Sum_0 =~= ctx_subst_types(c, t->Sum_0));
    }
    if e is Effects {
        assert(ctx_subst_expr(c, e)->Effects_0 =~= ctx_subst_effects(c, e->Effects_0));
    }
    if e is Add {
        assert(ctx_subst_expr(c, e)->Add_0 =~= ctx_subst_exprs(c, e->Add_0));
    }
    if e is Apply {
        assert(ctx_subst_expr(c, e)->arguments =~= ctx_subst_types(c, e->arguments));
    }
}

impl Ctx {
    fn subst_types_from_ctx(&self, v: &Vec<Type>) -> (r: Vec<Type>)
        ensures
            types_view(r@) == ctx_subst_types(self@, types_view(v@)),
        decreases v, 0nat,
    {
        let mut r: Vec<Type> = Vec::new();
        let mut i: usize = 0;
        while i < v.len()
            invariant
                i <= v.len(),
                r@.len() == i,
                forall|j: int| 0 <= j < i ==> r@[j]@ == ctx_subst_type(self@, v@[j]@),
            decreases v.len() - i,
        {
            proof { vstd::std_specs::vec::axiom_vec_index_decreases(*v, i as int); }
            r.push(self.substitute_from_ctx(&v[i]));
            i += 1;
        }
        assert(types_view(r@) =~= ctx_subst_types(self@, types_view(v@)));
        r
    }

    fn subst_effects_from_ctx(&self, v: &Vec<Effect>) -> (r: Vec<Effect>)
        ensures
            effects_view(r@) == ctx_subst_effects(self@, effects_view(v@)),
        decreases v, 0nat,
    {
        let mut r: Vec<Effect> = Vec::new();
        let mut i: usize = 0;
        while i < v.len()
            invariant
                i <= v.len(),
                r@.len() == i,
                forall|j: int| 0 <= j < i ==> r@[j]@ == ctx_subst_effect(self@, v@[j]@),
            decreases v.len() - i,
        {
            proof { vstd::std_specs::vec::axiom_vec_index_decreases(*v, i as int); }
            let e = &v[i];
            r.push(Effect { input: self.substitute_from_ctx(&e.input), output: self.substitute_from_ctx(&e.output) });
            i += 1;
        }
        assert(effects_view(r@) =~= ctx_subst_effects(self@, effects_view(v@)));
        r
    }

    fn subst_exprs_from_ctx(&self, v: &Vec<EffectExpr>) -> (r: Vec<EffectExpr>)
        ensures
            exprs_view(r@) == ctx_subst_exprs(self@, exprs_view(v@)),
        decreases v, 0nat,
    {
        let mut r: Vec<EffectExpr> = Vec::new();
        let mut i: usize = 0;
        while i < v.len()
            invariant
                i <= v.len(),
                r@.len() == i,
                forall|j: int| 0 <= j < i ==> r@[j]@ == ctx_subst_expr(self@, v@[j]@),
            decreases v.len() - i,
        {
            proof { vstd::std_specs::vec::axiom_vec_index_decreases(*v, i as int); }
            r.push(self.subst_expr_from_ctx(&v[i]));
            i += 1;
        }
        assert(exprs_view(r@) =~= ctx_subst_exprs(self@, exprs_view(v@)));
        r
    }

    /// `a` with what the context records substituted in, as [`ctx_subst_type`] says.
    pub fn substitute_from_ctx(&self, a: &Type) -> (r: Type)
        ensures
            r@ == ctx_subst_type(self@, a@),
        decreases a, 1nat,
    {
        proof { lemma_ctx_subst_unfold(self@, a@, SpecEffectExpr::Add(seq![])); }
        match a {
            Type::Existential(id) => match self.get_solved(id) {
                Some(s) => s,
                None => Type::Existential(*id),
            },
            Type::Variable(id) => match self.get_typed_var(id) {
                Ok(t) => t,
                Err(_) => Type::Variable(*id),
            },
            Type::Infer(id) => match self.inferred_types.get(id) {
                Some(t) => t.clone_type(),
                None => Type::Infer(*id),
            },
            Type::Number => Type::Number,
            Type::String => Type::String,
            Type::Product(v) => {
                proof {
                    assert(decreases_to!(*a => a->Product_0));
                    lemma_view_product(*v);
                }
                let r = self.subst_types_from_ctx(v);
                proof { lemma_view_product(r); }
                Type::Product(r)
            },
            Type::Sum(v) => {
                proof {
                    assert(decreases_to!(*a => a->Sum_0));
                    lemma_view_product(*v);
                }
                let r = self.subst_types_from_ctx(v);
                proof { lemma_view_product(r); }
                Type::Sum(r)
            },
            Type::Function { parameter, body } => Type::Function {
                parameter: Box::new(self.substitute_from_ctx(parameter)),
                body: Box::new(self.substitute_from_ctx(body)),
            },
            Type::Array(x) => Type::Array(Box::new(self.substitute_from_ctx(x))),
            Type::SetOf(x) => Type::SetOf(Box::new(self.substitute_from_ctx(x))),
            Type::ForAll { variable, body } => Type::ForAll {
                variable: *variable,
                body: Box::new(self.substitute_from_ctx(body)),
            },
            Type::Effectful { ty, effects } => Type::Effectful {
                ty: Box::new(self.substitute_from_ctx(ty)),
                effects: self.subst_expr_from_ctx(effects),
            },
            Type::Brand { brand, item } => Type::Brand {
                brand: brand.clone(),
                item: Box::new(self.substitute_from_ctx(item)),
            },
            Type::Label { label, item } => Type::Label {
                label: label.clone(),
                item: Box::new(self.substitute_from_ctx(item)),
            },
        }
    }

    fn subst_expr_from_ctx(&self, e: &EffectExpr) -> (r: EffectExpr)
        ensures
            r@ == ctx_subst_expr(self@, e@),
        decreases e, 1nat,
    {
        proof { lemma_ctx_subst_unfold(self@, SpecType::Number, e@); }
        match e {
            EffectExpr::Effects(v) => {
                proof {
                    assert(decreases_to!(*e => e->Effects_0));
                    lemma_view_effects(*v);
                }
                let r = self.subst_effects_from_ctx(v);
                proof { lemma_view_effects(r); }
                EffectExpr::Effects(r)
            },
            EffectExpr::Add(v) => {
                proof {
                    assert(decreases_to!(*e => e->Add_0));
                    lemma_view_add(*v);
                }
                let r = self.subst_exprs_from_ctx(v);
                proof { lemma_view_add(r); }
                EffectExpr::Add(r)
            },
            EffectExpr::Sub { minuend, subtrahend } => EffectExpr::Sub {
                minuend: Box::new(self.subst_expr_from_ctx(minuend)),
                subtrahend: Box::new(self.subst_expr_from_ctx(subtrahend)),
            },
            EffectExpr::Apply { function, arguments } => {
                proof {
                    assert(decreases_to!(*e => e->arguments));
                    lemma_view_apply(*function, *arguments);
                }
                let f = Box::new(self.substitute_from_ctx(function));
                let a = self.subst_types_from_ctx(arguments);
                proof { lemma_view_apply(f, a); }
                EffectExpr::Apply { function: f, arguments: a }
            },
        }
    }

    /// Substitutes what the context records into the types of `expr`.
    pub fn substitute_from_ctx_effect_expr(&self, expr: &mut EffectExpr)
        ensures
            final(expr)@ == ctx_subst_expr(self@, old(expr)@),
    {
        *expr = self.subst_expr_from_ctx(expr);
    }
}

} // verus!
