//! Instantiation: solving an existential so that it becomes a subtype or a
//! supertype of a given type, as [`instantiate_subtype_spec`] and
//! [`instantiate_supertype_spec`] say.
use vstd::prelude::*;

use crate::ctx::{Ctx, Log, SpecLog, Store, TypeError};
use crate::sorted::views;
use crate::subtype::res_view;
use crate::subtype_spec::{
    bump, component, composite_spec, declare_reversed, existentials, fresh_ids, instantiate_all_spec,
    instantiate_function_spec, instantiate_subtype_case, instantiate_subtype_spec,
    instantiate_supertype_case, instantiate_supertype_spec, instantiate_wrapped_spec, rewrap,
    skip_ids, solvable_at_once, solve_hole, store_solved, INFERENCE_DEPTH,
};
use crate::ctx::{SpecCtx, SpecStore, SpecTypeError};
use crate::substitute::{is_monotype, substitute};
use crate::ty::{effects_view, lemma_view_effects, lemma_view_product, types_view, Effect, EffectExpr, Id, Type};

verus! {

/// The type with one component `t` is, around `inner`.
fn rewrap_exec(t: &Type, inner: Type) -> (r: Type)
    ensures
        r@ == rewrap(t@, inner@),
{
    match t {
        Type::Array(_) => Type::Array(Box::new(inner)),
        Type::SetOf(_) => Type::SetOf(Box::new(inner)),
        Type::Label { label, item: _ } => Type::Label { label: label.clone(), item: Box::new(inner) },
        Type::Brand { brand, item: _ } => Type::Brand { brand: brand.clone(), item: Box::new(inner) },
        _ => t.clone_type(),
    }
}

/// The component of a type with one component.
fn component_exec(t: &Type) -> (r: &Type)
    ensures
        r@ == component(t@),
{
    match t {
        Type::Array(x) => x,
        Type::SetOf(x) => x,
        Type::Label { label: _, item } => item,
        Type::Brand { brand: _, item } => item,
        _ => t,
    }
}

/// A list with the two given entries.
fn two_logs(a: Log, b: Log) -> (r: Vec<Log>)
    ensures
        views(r@) == seq![a@, b@],
{
    let mut r: Vec<Log> = Vec::new();
    r.push(a);
    r.push(b);
    assert(views(r@) =~= seq![a@, b@]);
    r
}

/// A list with the one given entry.
fn one_log(a: Log) -> (r: Vec<Log>)
    ensures
        views(r@) == seq![a@],
{
    let mut r: Vec<Log> = Vec::new();
    r.push(a);
    assert(views(r@) =~= seq![a@]);
    r
}

impl Ctx {
    /// Whether `id` can be solved by `t` at once, as [`solvable_at_once`] says.
    fn solvable_at_once_exec(&self, id: &Id, t: &Type) -> (r: bool)
        ensures
            r == solvable_at_once(self@, *id, t@),
    {
        if is_monotype(t) && self.has_existential(id) {
            let before = self.truncate_from(&Log::Existential(*id)).recover_effects();
            before.is_well_formed(t)
        } else {
            false
        }
    }

    /// Instantiates each existential of `vars` against the type at the same
    /// place of `types`.
    fn instantiate_all_with(&self, store: &mut Store, vars: &Vec<Id>, types: &Vec<Type>, as_sub: bool, fuel: u64) -> (r: Result<Ctx, TypeError>)
        requires
            instantiate_all_spec(self@, old(store)@, vars@, types_view(types@), as_sub, fuel as nat) is Some,
        ensures
            instantiate_all_spec(self@, old(store)@, vars@, types_view(types@), as_sub, fuel as nat)
                == Some((res_view(r), final(store)@)),
        decreases fuel, 1nat, 0nat,
    {
        let ghost s = types_view(types@);
        let ghost goal = instantiate_all_spec(self@, store@, vars@, s, as_sub, fuel as nat);
        assert(s.skip(0) =~= s);
        assert(vars@.skip(0) =~= vars@);
        let mut ctx = self.clone_ctx();
        let mut i: usize = 0;
        while i < types.len() && i < vars.len()
            invariant
                i <= types@.len(),
                i <= vars@.len(),
                s == types_view(types@),
                goal == instantiate_all_spec(self@, old(store)@, vars@, types_view(types@), as_sub, fuel as nat),
                goal == instantiate_all_spec(ctx@, store@, vars@.skip(i as int), s.skip(i as int), as_sub, fuel as nat),
                goal is Some,
            decreases types@.len() - i,
        {
            proof {
                assert(s.skip(i as int)[0] == s[i as int]);
                assert(s.skip(i as int).drop_first() =~= s.skip(i + 1));
                assert(vars@.skip(i as int)[0] == vars@[i as int]);
                assert(vars@.skip(i as int).drop_first() =~= vars@.skip(i + 1));
            }
            let r = if as_sub {
                ctx.instantiate_subtype_with(store, &vars[i], &types[i], fuel)
            } else {
                ctx.instantiate_supertype_with(store, &types[i], &vars[i], fuel)
            };
            match r {
                Ok(c) => {
                    ctx = c;
                },
                Err(e) => {
                    assert(goal == Some((Err::<SpecCtx, SpecTypeError>(e@), store@)));
                    return Err(e);
                },
            }
            i += 1;
        }
        Ok(ctx)
    }

    /// Solves `id` by a product (a sum unless `product`) of fresh
    /// existentials and instantiates each against its type.
    fn composite_with(&self, store: &mut Store, id: Id, types: &Vec<Type>, product: bool, as_sub: bool, fuel: u64) -> (r: Result<Ctx, TypeError>)
        requires
            composite_spec(self@, old(store)@, id, types_view(types@), product, as_sub, fuel as nat) is Some,
        ensures
            composite_spec(self@, old(store)@, id, types_view(types@), product, as_sub, fuel as nat)
                == Some((res_view(r), final(store)@)),
        decreases fuel, 2nat, 0nat,
    {
        let ghost start = store@.next_id;
        let ghost st0 = store@;
        let n = types.len();
        let mut vars: Vec<Id> = Vec::new();
        let mut i: usize = 0;
        while i < n
            invariant
                n == types@.len(),
                i <= n,
                vars@ == fresh_ids(start, i as nat),
                store@ == (SpecStore { next_id: skip_ids(start, i as nat), ..st0 }),
            decreases n - i,
        {
            let v = self.fresh_existential(store);
            vars.push(v);
            i += 1;
        }
        proof { crate::subtype_spec::lemma_fresh_ids_len(start, n as nat); }
        let mut logs: Vec<Log> = Vec::new();
        let mut k: usize = n;
        while k > 0
            invariant
                n == vars@.len(),
                k <= n,
                logs@.len() == n - k,
                forall|j: int| 0 <= j < n - k ==> logs@[j]@ == SpecLog::Existential(vars@[n - 1 - j]),
            decreases k,
        {
            k -= 1;
            logs.push(Log::Existential(vars[k]));
        }
        let mut evars: Vec<Type> = Vec::new();
        let mut j: usize = 0;
        while j < n
            invariant
                n == vars@.len(),
                j <= n,
                evars@.len() == j,
                forall|m: int| 0 <= m < j ==> evars@[m]@ == crate::ty::SpecType::Existential(vars@[m]),
            decreases n - j,
        {
            evars.push(Type::Existential(vars[j]));
            j += 1;
        }
        proof {
            lemma_view_product(evars);
            assert(types_view(evars@) =~= existentials(vars@));
        }
        let solved = if product { Type::Product(evars) } else { Type::Sum(evars) };
        let ghost sv = solved@;
        let ghost before = views(logs@);
        logs.push(Log::Solved(id, solved));
        proof {
            assert(views(logs@) =~= declare_reversed(vars@, id, sv));
        }
        let c1 = self.insert_in_place(&Log::Existential(id), logs);
        c1.instantiate_all_with(store, &vars, types, as_sub, fuel)
    }

    /// Records the type `t` of the solved existential `id` in the store.
    fn store_solved(&self, store: &mut Store, id: Id, t: &Type)
        ensures
            final(store)@ == store_solved(self@, old(store)@, id, t@),
    {
        let none: Vec<Effect> = Vec::new();
        proof {
            lemma_view_effects(none);
            assert(effects_view(none@) =~= seq![]);
        }
        self.store_type_and_effects(store, id, t.clone_type(), EffectExpr::Effects(none));
    }

    /// The function case of the instantiations.
    fn instantiate_function_with(&self, store: &mut Store, id: &Id, parameter: &Type, body: &Type, as_sub: bool, fuel: u64) -> (r: Result<Ctx, TypeError>)
        requires
            instantiate_function_spec(self@, old(store)@, *id, parameter@, body@, as_sub, fuel as nat) is Some,
        ensures
            instantiate_function_spec(self@, old(store)@, *id, parameter@, body@, as_sub, fuel as nat)
                == Some((res_view(r), final(store)@)),
        decreases fuel, 2nat, 1nat,
    {
        let ghost st0 = store@;
        let a1 = self.fresh_existential(store);
        let a2 = self.fresh_existential(store);
        assert(store@ == bump(bump(st0)));
        let solved = Type::Function {
            parameter: Box::new(Type::Existential(a1)),
            body: Box::new(Type::Existential(a2)),
        };
        let mut logs = two_logs(Log::Existential(a2), Log::Existential(a1));
        let ghost before = views(logs@);
        let ghost sv = solved@;
        logs.push(Log::Solved(*id, solved));
        proof {
            assert(views(logs@) =~= before.push(SpecLog::Solved(*id, sv)));
            assert(views(logs@) =~= seq![SpecLog::Existential(a2), SpecLog::Existential(a1), SpecLog::Solved(*id, sv)]);
            assert((Type::Existential(a1))@ == crate::ty::SpecType::Existential(a1));
            assert((Type::Existential(a2))@ == crate::ty::SpecType::Existential(a2));
            assert(sv == crate::ty::SpecType::Function {
                parameter: Box::new(crate::ty::SpecType::Existential(a1)),
                body: Box::new(crate::ty::SpecType::Existential(a2)),
            });
        }
        let c1 = self.insert_in_place(&Log::Existential(*id), logs);
        let first = if as_sub {
            c1.instantiate_supertype_with(store, parameter, &a1, fuel)
        } else {
            c1.instantiate_subtype_with(store, &a1, parameter, fuel)
        };
        match first {
            Ok(theta) => {
                let b = theta.substitute_from_ctx(body);
                if as_sub {
                    theta.instantiate_subtype_with(store, &a2, &b, fuel)
                } else {
                    theta.instantiate_supertype_with(store, &b, &a2, fuel)
                }
            },
            Err(e) => Err(e),
        }
    }

    /// The case of the instantiations for a type with one component.
    fn instantiate_wrapped_with(&self, store: &mut Store, id: &Id, t: &Type, as_sub: bool, fuel: u64) -> (r: Result<Ctx, TypeError>)
        requires
            instantiate_wrapped_spec(self@, old(store)@, *id, t@, as_sub, fuel as nat) is Some,
        ensures
            instantiate_wrapped_spec(self@, old(store)@, *id, t@, as_sub, fuel as nat)
                == Some((res_view(r), final(store)@)),
        decreases fuel, 2nat, 1nat,
    {
        let a = self.fresh_existential(store);
        let logs = two_logs(Log::Existential(a), Log::Solved(*id, rewrap_exec(t, Type::Existential(a))));
        let c1 = self.insert_in_place(&Log::Existential(*id), logs);
        if as_sub {
            c1.instantiate_subtype_with(store, &a, component_exec(t), fuel)
        } else {
            c1.instantiate_supertype_with(store, component_exec(t), &a, fuel)
        }
    }

    /// The case of the instantiations for an inference hole.
    fn solve_hole_with(&self, id: &Id, hole: Id, t: &Type) -> (r: Ctx)
        requires
            (SpecCtx { inferred_types: self@.inferred_types.insert(hole, crate::ty::SpecType::Existential(*id)), ..self@ })
                .has_log(SpecLog::Existential(*id)),
        ensures
            forall|st: SpecStore| solve_hole(self@, st, *id, hole, t@) == Some((Ok::<SpecCtx, SpecTypeError>(r@), st)),
    {
        let mut c1 = self.clone_ctx();
        c1.store_inferred_type(hole, Type::Existential(*id));
        c1.insert_in_place(&Log::Existential(*id), one_log(Log::Solved(*id, t.clone_type())))
    }

    /// The step of the instantiation as a subtype before the solution is
    /// stored.
    fn instantiate_subtype_case_with(&self, store: &mut Store, id: &Id, sup: &Type, fuel: u64) -> (r: Result<Ctx, TypeError>)
        requires
            instantiate_subtype_case(self@, old(store)@, *id, sup@, fuel as nat) is Some,
        ensures
            instantiate_subtype_case(self@, old(store)@, *id, sup@, fuel as nat) == Some((res_view(r), final(store)@)),
        decreases fuel, 3nat, 0nat,
    {
        if self.solvable_at_once_exec(id, sup) {
            return Ok(self.insert_in_place(&Log::Existential(*id), one_log(Log::Solved(*id, sup.clone_type()))));
        }
        match sup {
            Type::Effectful { ty, effects: _ } => self.instantiate_subtype_with(store, id, ty, fuel),
            Type::Function { parameter, body } => self.instantiate_function_with(store, id, parameter, body, true, fuel),
            Type::ForAll { variable, body } => {
                let c1 = self.add(Log::Variable(*variable));
                match c1.instantiate_subtype_with(store, id, body, fuel) {
                    Ok(c2) => Ok(c2.close_at(&Log::Variable(*variable))),
                    Err(e) => Err(e),
                }
            },
            Type::Existential(b) => Ok(self.insert_in_place(
                &Log::Existential(*b),
                one_log(Log::Solved(*b, Type::Existential(*id))),
            )),
            Type::Product(types) => {
                proof { lemma_view_product(*types); }
                self.composite_with(store, *id, types, true, true, fuel)
            },
            Type::Sum(types) => {
                proof { lemma_view_product(*types); }
                self.composite_with(store, *id, types, false, true, fuel)
            },
            Type::Array(_) | Type::SetOf(_) | Type::Label { .. } | Type::Brand { .. } => {
                self.instantiate_wrapped_with(store, id, sup, true, fuel)
            },
            Type::Infer(hole) => Ok(self.solve_hole_with(id, *hole, sup)),
            _ => Err(TypeError::NotInstantiableSubtype { ty: sup.clone_type() }),
        }
    }

    /// The step of the instantiation as a supertype before the solution is
    /// stored.
    fn instantiate_supertype_case_with(&self, store: &mut Store, sub: &Type, id: &Id, fuel: u64) -> (r: Result<Ctx, TypeError>)
        requires
            instantiate_supertype_case(self@, old(store)@, sub@, *id, fuel as nat) is Some,
        ensures
            instantiate_supertype_case(self@, old(store)@, sub@, *id, fuel as nat) == Some((res_view(r), final(store)@)),
        decreases fuel, 3nat, 0nat,
    {
        if self.solvable_at_once_exec(id, sub) {
            return Ok(self.insert_in_place(&Log::Existential(*id), one_log(Log::Solved(*id, sub.clone_type()))));
        }
        match sub {
            Type::Effectful { ty, effects } => match self.instantiate_supertype_with(store, ty, id, fuel) {
                Ok(c) => Ok(c.add_effects(effects)),
                Err(e) => Err(e),
            },
            Type::Function { parameter, body } => self.instantiate_function_with(store, id, parameter, body, false, fuel),
            Type::ForAll { variable, body } => {
                let c1 = self.add(Log::Marker(*variable)).add(Log::Existential(*variable));
                let body = substitute(body, variable, &Type::Existential(*variable));
                match c1.instantiate_supertype_with(store, &body, id, fuel) {
                    Ok(c2) => Ok(c2.close_at(&Log::Marker(*variable))),
                    Err(e) => Err(e),
                }
            },
            Type::Existential(_) => Ok(self.insert_in_place(
                &Log::Existential(*id),
                one_log(Log::Solved(*id, sub.clone_type())),
            )),
            Type::Product(types) => {
                proof { lemma_view_product(*types); }
                self.composite_with(store, *id, types, true, false, fuel)
            },
            Type::Sum(types) => {
                proof { lemma_view_product(*types); }
                self.composite_with(store, *id, types, false, false, fuel)
            },
            Type::Array(_) | Type::Label { .. } | Type::Brand { .. } => {
                self.instantiate_wrapped_with(store, id, sub, false, fuel)
            },
            Type::Infer(hole) => Ok(self.solve_hole_with(id, *hole, sub)),
            _ => Err(TypeError::NotInstantiableSupertype { ty: sub.clone_type() }),
        }
    }

    /// Instantiation of an existential as a subtype, with a depth bound.
    pub fn instantiate_subtype_with(&self, store: &mut Store, id: &Id, sup: &Type, fuel: u64) -> (r: Result<Ctx, TypeError>)
        requires
            instantiate_subtype_spec(self@, old(store)@, *id, sup@, fuel as nat) is Some,
        ensures
            instantiate_subtype_spec(self@, old(store)@, *id, sup@, fuel as nat) == Some((res_view(r), final(store)@)),
        decreases fuel, 0nat, 0nat,
    {
        match self.instantiate_subtype_case_with(store, id, sup, fuel - 1) {
            Ok(c) => {
                self.store_solved(store, *id, sup);
                Ok(c)
            },
            Err(e) => Err(e),
        }
    }

    /// Instantiation of an existential as a supertype, with a depth bound.
    pub fn instantiate_supertype_with(&self, store: &mut Store, sub: &Type, id: &Id, fuel: u64) -> (r: Result<Ctx, TypeError>)
        requires
            instantiate_supertype_spec(self@, old(store)@, sub@, *id, fuel as nat) is Some,
        ensures
            instantiate_supertype_spec(self@, old(store)@, sub@, *id, fuel as nat) == Some((res_view(r), final(store)@)),
        decreases fuel, 0nat, 0nat,
    {
        match self.instantiate_supertype_case_with(store, sub, id, fuel - 1) {
            Ok(c) => {
                self.store_solved(store, *id, sub);
                Ok(c)
            },
            Err(e) => Err(e),
        }
    }

    /// Solves the existential `id` so that it is a subtype of `sup`, as
    /// [`instantiate_subtype_spec`] says.
    pub fn instantiate_subtype(&self, store: &mut Store, id: &Id, sup: &Type) -> (r: Result<Ctx, TypeError>)
        requires
            instantiate_subtype_spec(self@, old(store)@, *id, sup@, INFERENCE_DEPTH as nat) is Some,
        ensures
            instantiate_subtype_spec(self@, old(store)@, *id, sup@, INFERENCE_DEPTH as nat)
                == Some((res_view(r), final(store)@)),
    {
        self.instantiate_subtype_with(store, id, sup, INFERENCE_DEPTH)
    }

    /// Solves the existential `id` so that it is a supertype of `sub`, as
    /// [`instantiate_supertype_spec`] says.
    pub fn instantiate_supertype(&self, store: &mut Store, sub: &Type, id: &Id) -> (r: Result<Ctx, TypeError>)
        requires
            instantiate_supertype_spec(self@, old(store)@, sub@, *id, INFERENCE_DEPTH as nat) is Some,
        ensures
            instantiate_supertype_spec(self@, old(store)@, sub@, *id, INFERENCE_DEPTH as nat)
                == Some((res_view(r), final(store)@)),
    {
        self.instantiate_supertype_with(store, sub, id, INFERENCE_DEPTH)
    }
}

} // verus!
