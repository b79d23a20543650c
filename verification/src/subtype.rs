//! Subtyping: checks that one type is a subtype of another, solving
//! existentials on the way, as [`subtype_spec`] says.
//!
//! The types are those of [`crate::ty`]: arrays and sets, and quantifiers
//! without a bound, with effects as effect expressions. Two effectful types
//! are compared as the context that relates their inner types, with the
//! difference of their effects added to it; an effectful subtype adds its
//! effects to the context that relates its inner type.
use vstd::prelude::*;

use crate::ctx::{Ctx, Log, SpecCtx, SpecLog, SpecTypeError, Store, TypeError};
use crate::subtype_spec::{
    all_any_spec, any_of_spec, close_at, first_subtype_spec, subtype_spec, INFERENCE_DEPTH,
};
use crate::substitute::{occurs_in, substitute};
use crate::ty::{lemma_view_product, types_view, EffectExpr, Type};

verus! {

/// The model of the result of a step.
pub open spec fn res_view(r: Result<Ctx, TypeError>) -> Result<SpecCtx, SpecTypeError> {
    match r {
        Ok(c) => Ok(c@),
        Err(e) => Err(e@),
    }
}

/// The model of an optional context.
pub open spec fn opt_ctx_view(r: Option<Ctx>) -> Option<SpecCtx> {
    match r {
        Some(c) => Some(c@),
        None => None,
    }
}

impl Ctx {
    /// The context cut at `log`, with the cut effects recorded again.
    pub fn close_at(&self, log: &Log) -> (r: Ctx)
        requires
            self@.has_log(log@),
        ensures
            close_at(self@, log@) == Some(r@),
    {
        self.truncate_from(log).recover_effects()
    }

    fn not_subtype(sub: &Type, ty: &Type) -> (r: TypeError)
        ensures
            r@ == (SpecTypeError::NotSubtype { sub: sub@, ty: ty@ }),
    {
        TypeError::NotSubtype { sub: sub.clone_type(), ty: ty.clone_type() }
    }

    /// Whether some type of `inner` is a supertype of `x` (a subtype when
    /// `flip`).
    fn any_of_with(&self, store: &mut Store, x: &Type, inner: &Vec<Type>, flip: bool, fuel: u64) -> (r: bool)
        requires
            any_of_spec(self@, old(store)@, x@, types_view(inner@), flip, fuel as nat) is Some,
        ensures
            any_of_spec(self@, old(store)@, x@, types_view(inner@), flip, fuel as nat) == Some((r, final(store)@)),
        decreases fuel, 1nat, 0nat,
    {
        let ghost s = types_view(inner@);
        let ghost goal = any_of_spec(self@, store@, x@, s, flip, fuel as nat);
        assert(s.skip(0) =~= s);
        let mut i: usize = 0;
        while i < inner.len()
            invariant
                i <= inner@.len(),
                s == types_view(inner@),
                goal == any_of_spec(self@, old(store)@, x@, types_view(inner@), flip, fuel as nat),
                goal == any_of_spec(self@, store@, x@, s.skip(i as int), flip, fuel as nat),
                goal is Some,
            decreases inner@.len() - i,
        {
            proof {
                assert(s.skip(i as int)[0] == s[i as int]);
                assert(s.skip(i as int).drop_first() =~= s.skip(i + 1));
            }
            let r = if flip {
                self.subtype_with(store, &inner[i], x, fuel)
            } else {
                self.subtype_with(store, x, &inner[i], fuel)
            };
            match r {
                Ok(_) => {
                    return true;
                },
                Err(_) => {},
            }
            i += 1;
        }
        false
    }

    /// Whether [`Ctx::any_of_with`] holds for every type of `outer`.
    fn all_any_with(&self, store: &mut Store, outer: &Vec<Type>, inner: &Vec<Type>, flip: bool, fuel: u64) -> (r: bool)
        requires
            all_any_spec(self@, old(store)@, types_view(outer@), types_view(inner@), flip, fuel as nat) is Some,
        ensures
            all_any_spec(self@, old(store)@, types_view(outer@), types_view(inner@), flip, fuel as nat)
                == Some((r, final(store)@)),
        decreases fuel, 2nat, 0nat,
    {
        let ghost s = types_view(outer@);
        let ghost goal = all_any_spec(self@, store@, s, types_view(inner@), flip, fuel as nat);
        assert(s.skip(0) =~= s);
        let mut i: usize = 0;
        while i < outer.len()
            invariant
                i <= outer@.len(),
                s == types_view(outer@),
                goal == all_any_spec(self@, old(store)@, types_view(outer@), types_view(inner@), flip, fuel as nat),
                goal == all_any_spec(self@, store@, s.skip(i as int), types_view(inner@), flip, fuel as nat),
                goal is Some,
            decreases outer@.len() - i,
        {
            proof {
                assert(s.skip(i as int)[0] == s[i as int]);
                assert(s.skip(i as int).drop_first() =~= s.skip(i + 1));
            }
            if !self.any_of_with(store, &outer[i], inner, flip, fuel) {
                return false;
            }
            i += 1;
        }
        true
    }

    /// The context of the first candidate that is a subtype of `other` (a
    /// supertype when `flip`).
    fn first_subtype_with(&self, store: &mut Store, cands: &Vec<Type>, other: &Type, flip: bool, fuel: u64) -> (r: Option<Ctx>)
        requires
            first_subtype_spec(self@, old(store)@, types_view(cands@), other@, flip, fuel as nat) is Some,
        ensures
            first_subtype_spec(self@, old(store)@, types_view(cands@), other@, flip, fuel as nat)
                == Some((opt_ctx_view(r), final(store)@)),
        decreases fuel, 1nat, 0nat,
    {
        let ghost s = types_view(cands@);
        let ghost goal = first_subtype_spec(self@, store@, s, other@, flip, fuel as nat);
        assert(s.skip(0) =~= s);
        let mut i: usize = 0;
        while i < cands.len()
            invariant
                i <= cands@.len(),
                s == types_view(cands@),
                goal == first_subtype_spec(self@, old(store)@, types_view(cands@), other@, flip, fuel as nat),
                goal == first_subtype_spec(self@, store@, s.skip(i as int), other@, flip, fuel as nat),
                goal is Some,
            decreases cands@.len() - i,
        {
            proof {
                assert(s.skip(i as int)[0] == s[i as int]);
                assert(s.skip(i as int).drop_first() =~= s.skip(i + 1));
            }
            let r = if flip {
                self.subtype_with(store, other, &cands[i], fuel)
            } else {
                self.subtype_with(store, &cands[i], other, fuel)
            };
            match r {
                Ok(c) => {
                    return Some(c);
                },
                Err(_) => {},
            }
            i += 1;
        }
        None
    }

    /// Subtyping with a depth bound.
    pub fn subtype_with(&self, store: &mut Store, sub: &Type, ty: &Type, fuel: u64) -> (r: Result<Ctx, TypeError>)
        requires
            subtype_spec(self@, old(store)@, sub@, ty@, fuel as nat) is Some,
        ensures
            subtype_spec(self@, old(store)@, sub@, ty@, fuel as nat) == Some((res_view(r), final(store)@)),
        decreases fuel, 0nat, 0nat,
    {
        let f: u64 = fuel - 1;
        match (sub, ty) {
            (Type::Variable(a), Type::Variable(b)) => {
                if *a == *b {
                    Ok(self.clone_ctx())
                } else {
                    Err(Ctx::not_subtype(sub, ty))
                }
            },
            (Type::Number, Type::Number) => Ok(self.clone_ctx()),
            (Type::String, Type::String) => Ok(self.clone_ctx()),
            (Type::Existential(a), Type::Existential(b)) if *a == *b => Ok(self.clone_ctx()),
            (Type::Existential(a), _) => {
                if occurs_in(a, ty) {
                    Err(TypeError::CircularExistential { id: *a, ty: ty.clone_type() })
                } else {
                    self.instantiate_subtype_with(store, a, ty, f)
                }
            },
            (_, Type::Existential(a)) => {
                if occurs_in(a, sub) {
                    Err(TypeError::CircularExistential { id: *a, ty: ty.clone_type() })
                } else {
                    self.instantiate_supertype_with(store, sub, a, f)
                }
            },
            (Type::Product(ss), Type::Product(ts)) => {
                proof {
                    lemma_view_product(*ss);
                    lemma_view_product(*ts);
                }
                if self.all_any_with(store, ss, ts, false, f) {
                    Ok(self.clone_ctx())
                } else {
                    Err(Ctx::not_subtype(sub, ty))
                }
            },
            (Type::Product(ss), _) => {
                proof { lemma_view_product(*ss); }
                match self.first_subtype_with(store, ss, ty, false, f) {
                    Some(c) => Ok(c),
                    None => Err(Ctx::not_subtype(sub, ty)),
                }
            },
            (Type::Sum(ss), Type::Sum(ts)) => {
                proof {
                    lemma_view_product(*ss);
                    lemma_view_product(*ts);
                }
                if self.all_any_with(store, ts, ss, true, f) {
                    Ok(self.clone_ctx())
                } else {
                    Err(Ctx::not_subtype(sub, ty))
                }
            },
            (_, Type::Sum(ts)) => {
                proof { lemma_view_product(*ts); }
                match self.first_subtype_with(store, ts, sub, true, f) {
                    Some(c) => Ok(c),
                    None => Err(Ctx::not_subtype(sub, ty)),
                }
            },
            (
                Type::Function { parameter: sub_parameter, body: sub_body },
                Type::Function { parameter, body },
            ) => match self.subtype_with(store, sub_parameter, parameter, f) {
                Ok(theta) => {
                    let b = theta.substitute_from_ctx(body);
                    let sb = theta.substitute_from_ctx(sub_body);
                    theta.subtype_with(store, &b, &sb, f)
                },
                Err(e) => Err(e),
            },
            (Type::Array(a), Type::Array(b)) => self.subtype_with(store, a, b, f),
            (Type::SetOf(a), Type::SetOf(b)) => self.subtype_with(store, a, b, f),
            (Type::ForAll { variable, body }, _) => {
                let a = self.fresh_existential(store);
                let c1 = self.add(Log::Marker(a)).add(Log::Existential(a));
                let body = substitute(body, variable, &Type::Existential(a));
                match c1.subtype_with(store, &body, ty, f) {
                    Ok(c2) => Ok(c2.close_at(&Log::Marker(a))),
                    Err(e) => Err(e),
                }
            },
            (_, Type::ForAll { variable, body }) => {
                let c1 = self.add(Log::Variable(*variable));
                match c1.subtype_with(store, sub, body, f) {
                    Ok(c2) => Ok(c2.close_at(&Log::Variable(*variable))),
                    Err(e) => Err(e),
                }
            },
            (_, Type::Label { label: _, item }) => self.subtype_with(store, sub, item, f),
            (Type::Label { label: _, item }, _) => self.subtype_with(store, item, ty, f),
            (Type::Brand { brand: _, item }, _) => self.subtype_with(store, item, ty, f),
            (Type::Infer(id), _) => {
                let mut c = self.clone_ctx();
                c.store_inferred_type(*id, ty.clone_type());
                Ok(c)
            },
            (_, Type::Infer(id)) => {
                let mut c = self.clone_ctx();
                c.store_inferred_type(*id, sub.clone_type());
                Ok(c)
            },
            (
                Type::Effectful { ty: inner, effects },
                Type::Effectful { ty: inner2, effects: super_effects },
            ) => match self.subtype_with(store, inner, inner2, f) {
                Ok(theta) => Ok(theta.add_effects(
                    &EffectExpr::Sub {
                        minuend: Box::new(effects.clone_expr()),
                        subtrahend: Box::new(super_effects.clone_expr()),
                    },
                )),
                Err(e) => Err(e),
            },
            (Type::Effectful { ty: inner, effects }, _) => match self.subtype_with(store, inner, ty, f) {
                Ok(theta) => Ok(theta.add_effects(effects)),
                Err(e) => Err(e),
            },
            (_, Type::Effectful { ty: inner, effects: _ }) => self.subtype_with(store, sub, inner, f),
            _ => Err(Ctx::not_subtype(sub, ty)),
        }
    }

    /// Checks that `sub` is a subtype of `ty`, solving existentials on the
    /// way, and returns the resulting context, as [`subtype_spec`] says.
    /// Defined where the algorithm does not get stuck on an entry that the
    /// context lacks.
    pub fn subtype(&self, store: &mut Store, sub: &Type, ty: &Type) -> (r: Result<Ctx, TypeError>)
        requires
            subtype_spec(self@, old(store)@, sub@, ty@, INFERENCE_DEPTH as nat) is Some,
        ensures
            subtype_spec(self@, old(store)@, sub@, ty@, INFERENCE_DEPTH as nat) == Some((res_view(r), final(store)@)),
    {
        self.subtype_with(store, sub, ty, INFERENCE_DEPTH)
    }

    /// Subtyping against an optional bound: with no bound, the context as it
    /// is.
    pub fn bound_check(&self, store: &mut Store, sub: &Type, bound: &Option<Box<Type>>) -> (r: Result<Ctx, TypeError>)
        requires
            bound matches Some(b) ==> subtype_spec(self@, old(store)@, sub@, b@, INFERENCE_DEPTH as nat) is Some,
        ensures
            match bound {
                Some(b) => subtype_spec(self@, old(store)@, sub@, b@, INFERENCE_DEPTH as nat) == Some(
                    (res_view(r), final(store)@),
                ),
                None => r matches Ok(c) && c@ == self@ && final(store)@ == old(store)@,
            },
    {
        match bound {
            Some(b) => self.subtype(store, sub, b),
            None => Ok(self.clone_ctx()),
        }
    }
}

} // verus!
