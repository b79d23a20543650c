//! Well-formedness of a type under a context: every existential and every
//! variable that the type mentions is declared by the context.
use vstd::prelude::*;

use crate::ctx::{solved_of, Ctx, SpecCtx, SpecLog};
use crate::ty::{
    effects_view, exprs_view, lemma_view_add, lemma_view_apply, lemma_view_effects,
    lemma_view_product, types_view, Effect, EffectExpr, SpecEffect, SpecEffectExpr, SpecType, Type,
};

verus! {

/// Every existential of `t` is in `c`, unsolved or solved, and every
/// variable of `t` is in `c`.
pub open spec fn wf_type(c: SpecCtx, t: SpecType) -> bool
    decreases t,
{
    match t {
        SpecType::Existential(id) => c.has_log(SpecLog::Existential(id)) || solved_of(c.logs, id) is Some,
        SpecType::Variable(id) => c.has_log(SpecLog::Variable(id)),
        SpecType::Product(s) => wf_types(c, s),
        SpecType::Sum(s) => wf_types(c, s),
        SpecType::Function { parameter, body } => wf_type(c, *parameter) && wf_type(c, *body),
        SpecType::Array(x) => wf_type(c, *x),
        SpecType::SetOf(x) => wf_type(c, *x),
        SpecType::ForAll { variable, body } => wf_type(c, *body),
        SpecType::Effectful { ty, effects } => wf_type(c, *ty) && wf_expr(c, effects),
        SpecType::Brand { brand, item } => wf_type(c, *item),
        SpecType::Label { label, item } => wf_type(c, *item),
        _ => true,
    }
}

pub open spec fn wf_types(c: SpecCtx, s: Seq<SpecType>) -> bool
    decreases s,
{
    if s.len() == 0 { true } else { wf_type(c, s[0]) && wf_types(c, s.subrange(1, s.len() as int)) }
}

pub open spec fn wf_effects(c: SpecCtx, s: Seq<SpecEffect>) -> bool
    decreases s,
{
    if s.len() == 0 {
        true
    } else {
        wf_type(c, s[0].input) && wf_type(c, s[0].output) && wf_effects(c, s.subrange(1, s.len() as int))
    }
}

pub open spec fn wf_exprs(c: SpecCtx, s: Seq<SpecEffectExpr>) -> bool
    decreases s,
{
    if s.len() == 0 { true } else { wf_expr(c, s[0]) && wf_exprs(c, s.subrange(1, s.len() as int)) }
}

/// [`wf_type`] of every type of an effect expression.
pub open spec fn wf_expr(c: SpecCtx, e: SpecEffectExpr) -> bool
    decreases e,
{
    match e {
        SpecEffectExpr::Effects(s) => wf_effects(c, s),
        SpecEffectExpr::Add(s) => wf_exprs(c, s),
        SpecEffectExpr::Sub { minuend, subtrahend } => wf_expr(c, *minuend) && wf_expr(c, *subtrahend),
        SpecEffectExpr::Apply { function, arguments } => wf_type(c, *function) && wf_types(c, arguments),
    }
}

proof fn lemma_wf_types_skip(c: SpecCtx, s: Seq<SpecType>, i: int)
    requires
        0 <= i <= s.len(),
        forall|j: int| 0 <= j < i ==> wf_type(c, s[j]),
    ensures
        wf_types(c, s) == wf_types(c, s.subrange(i, s.len() as int)),
    decreases i,
{
    if i > 0 {
        let s1 = s.subrange(1, s.len() as int);
        assert forall|j: int| 0 <= j < i - 1 implies wf_type(c, s1[j]) by {
            assert(s1[j] == s[j + 1]);
        }
        lemma_wf_types_skip(c, s1, i - 1);
        assert(s1.subrange(i - 1, s1.len() as int) =~= s.subrange(i, s.len() as int));
    } else {
        assert(s.subrange(0, s.len() as int) =~= s);
    }
}

proof fn lemma_wf_effects_skip(c: SpecCtx, s: Seq<SpecEffect>, i: int)
    requires
        0 <= i <= s.len(),
        forall|j: int| 0 <= j < i ==> wf_type(c, s[j].input) && wf_type(c, s[j].output),
    ensures
        wf_effects(c, s) == wf_effects(c, s.subrange(i, s.len() as int)),
    decreases i,
{
    if i > 0 {
        let s1 = s.subrange(1, s.len() as int);
        assert forall|j: int| 0 <= j < i - 1 implies wf_type(c, s1[j].input) && wf_type(c, s1[j].output) by {
            assert(s1[j] == s[j + 1]);
        }
        lemma_wf_effects_skip(c, s1, i - 1);
        assert(s1.subrange(i - 1, s1.len() as int) =~= s.subrange(i, s.len() as int));
    } else {
        assert(s.subrange(0, s.len() as int) =~= s);
    }
}

proof fn lemma_wf_exprs_skip(c: SpecCtx, s: Seq<SpecEffectExpr>, i: int)
    requires
        0 <= i <= s.len(),
        forall|j: int| 0 <= j < i ==> wf_expr(c, s[j]),
    ensures
        wf_exprs(c, s) == wf_exprs(c, s.subrange(i, s.len() as int)),
    decreases i,
{
    if i > 0 {
        let s1 = s.subrange(1, s.len() as int);
        assert forall|j: int| 0 <= j < i - 1 implies wf_expr(c, s1[j]) by {
            assert(s1[j] == s[j + 1]);
        }
        lemma_wf_exprs_skip(c, s1, i - 1);
        assert(s1.subrange(i - 1, s1.len() as int) =~= s.subrange(i, s.len() as int));
    } else {
        assert(s.subrange(0, s.len() as int) =~= s);
    }
}

impl Ctx {
    fn types_well_formed(&self, v: &Vec<Type>) -> (r: bool)
        ensures
            r == wf_types(self@, types_view(v@)),
        decreases v, 0nat,
    {
        let ghost s = types_view(v@);
        let mut i: usize = 0;
        while i < v.len()
            invariant
                i <= v.len(),
                s == types_view(v@),
                forall|j: int| 0 <= j < i ==> wf_type(self@, s[j]),
            decreases v.len() - i,
        {
            proof { vstd::std_specs::vec::axiom_vec_index_decreases(*v, i as int); }
            if !self.is_well_formed(&v[i]) {
                proof {
                    lemma_wf_types_skip(self@, s, i as int);
                    assert(s.subrange(i as int, s.len() as int)[0] == s[i as int]);
                }
                return false;
            }
            i += 1;
        }
        proof { lemma_wf_types_skip(self@, s, i as int); }
        true
    }

    /// Whether every existential and every variable of `ty` is declared in
    /// the context.
    pub fn is_well_formed(&self, ty: &Type) -> (r: bool)
        ensures
            r == wf_type(self@, ty@),
        decreases ty, 1nat,
    {
        match ty {
            Type::Existential(id) => self.has_existential(id) || self.get_solved(id).is_some(),
            Type::Variable(id) => self.has_variable(id),
            Type::Product(v) => {
                proof {
                    assert(decreases_to!(*ty => ty->Product_0));
                    lemma_view_product(*v);
                }
                self.types_well_formed(v)
            },
            Type::Sum(v) => {
                proof {
                    assert(decreases_to!(*ty => ty->Sum_0));
                    lemma_view_product(*v);
                }
                self.types_well_formed(v)
            },
            Type::Function { parameter, body } => self.is_well_formed(parameter) && self.is_well_formed(body),
            Type::Array(x) => self.is_well_formed(x),
            Type::SetOf(x) => self.is_well_formed(x),
            Type::ForAll { variable: _, body } => self.is_well_formed(body),
            Type::Effectful { ty: inner, effects } => self.is_well_formed(inner) && self.expr_well_formed(effects),
            Type::Brand { brand: _, item } => self.is_well_formed(item),
            Type::Label { label: _, item } => self.is_well_formed(item),
            _ => true,
        }
    }

    fn expr_well_formed(&self, e: &EffectExpr) -> (r: bool)
        ensures
            r == wf_expr(self@, e@),
        decreases e, 1nat,
    {
        match e {
            EffectExpr::Effects(v) => {
                proof {
                    assert(decreases_to!(*e => e->Effects_0));
                    lemma_view_effects(*v);
                }
                let ghost s = effects_view(v@);
                let mut i: usize = 0;
                while i < v.len()
                    invariant
                        i <= v.len(),
                        *e == EffectExpr::Effects(*v),
                        e@ == SpecEffectExpr::Effects(s),
                        s == effects_view(v@),
                        forall|j: int| 0 <= j < i ==> wf_type(self@, s[j].input) && wf_type(self@, s[j].output),
                    decreases v.len() - i,
                {
                    proof {
                        vstd::std_specs::vec::axiom_vec_index_decreases(*v, i as int);
                        assert(decreases_to!(*e => e->Effects_0));
                    }
                    if !(self.is_well_formed(&v[i].input) && self.is_well_formed(&v[i].output)) {
                        proof {
                            lemma_wf_effects_skip(self@, s, i as int);
                            assert(s.subrange(i as int, s.len() as int)[0] == s[i as int]);
                        }
                        return false;
                    }
                    i += 1;
                }
                proof { lemma_wf_effects_skip(self@, s, i as int); }
                true
            },
            EffectExpr::Add(v) => {
                proof {
                    assert(decreases_to!(*e => e->Add_0));
                    lemma_view_add(*v);
                }
                let ghost s = exprs_view(v@);
                let mut i: usize = 0;
                while i < v.len()
                    invariant
                        i <= v.len(),
                        *e == EffectExpr::Add(*v),
                        e@ == SpecEffectExpr::Add(s),
                        s == exprs_view(v@),
                        forall|j: int| 0 <= j < i ==> wf_expr(self@, s[j]),
                    decreases v.len() - i,
                {
                    proof {
                        vstd::std_specs::vec::axiom_vec_index_decreases(*v, i as int);
                        assert(decreases_to!(*e => e->Add_0));
                    }
                    if !self.expr_well_formed(&v[i]) {
                        proof {
                            lemma_wf_exprs_skip(self@, s, i as int);
                            assert(s.subrange(i as int, s.len() as int)[0] == s[i as int]);
                        }
                        return false;
                    }
                    i += 1;
                }
                proof { lemma_wf_exprs_skip(self@, s, i as int); }
                true
            },
            EffectExpr::Sub { minuend, subtrahend } => self.expr_well_formed(minuend) && self.expr_well_formed(subtrahend),
            EffectExpr::Apply { function, arguments } => {
                proof {
                    assert(decreases_to!(*e => e->arguments));
                    lemma_view_apply(*function, *arguments);
                }
                self.is_well_formed(function) && self.types_well_formed(arguments)
            },
        }
    }
}

} // verus!
