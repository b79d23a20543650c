//! What subtyping and the instantiation of existentials compute, stated over
//! the models of contexts, types and the shared store.
//!
//! Each step of the algorithm may create identifiers, store the types of
//! solved existentials and leave the context changed, so each is a function
//! from a context, a store and its arguments to a result and the new store.
//! It is `None` where the computation gets stuck on an entry that the
//! context lacks, or goes deeper than `fuel`.
use vstd::prelude::*;

use crate::ctx::{succ_id, SpecCtx, SpecLog, SpecStore, SpecTypeError, ctx_with_effects};
use crate::substitute::{monotype, occurs, subst_type};
use crate::substitute_from_ctx::ctx_subst_type;
use crate::ty::{SpecEffectExpr, SpecType};
use crate::well_formed::wf_type;
use crate::ty::Id;

verus! {

/// The outcome of a step: the new context or the error, with the new store;
/// `None` where the step gets stuck.
pub type Step = Option<(Result<SpecCtx, SpecTypeError>, SpecStore)>;

/// The depth bound from which the public entry points start.
pub const INFERENCE_DEPTH: u64 = 0xffff_ffff_ffff_ffff;

/// The identifier `n` steps after `start`.
pub open spec fn skip_ids(start: Id, n: nat) -> Id
    decreases n,
{
    if n == 0 { start } else { succ_id(skip_ids(start, (n - 1) as nat)) }
}

/// The `n` identifiers handed out from `start` on, in order.
pub open spec fn fresh_ids(start: Id, n: nat) -> Seq<Id>
    decreases n,
{
    if n == 0 { seq![] } else { fresh_ids(start, (n - 1) as nat).push(skip_ids(start, (n - 1) as nat)) }
}

pub proof fn lemma_fresh_ids_len(start: Id, n: nat)
    ensures
        fresh_ids(start, n).len() == n,
    decreases n,
{
    if n > 0 {
        lemma_fresh_ids_len(start, (n - 1) as nat);
    }
}

/// The store with one more identifier handed out.
pub open spec fn bump(st: SpecStore) -> SpecStore {
    SpecStore { next_id: succ_id(st.next_id), ..st }
}

/// The store once the type `t` of the solved existential `id` is recorded.
pub open spec fn store_solved(c: SpecCtx, st: SpecStore, id: Id, t: SpecType) -> SpecStore {
    SpecStore { types: st.types.insert(id, ctx_with_effects(c, t, SpecEffectExpr::Effects(seq![]))), ..st }
}

/// The context with the hole `id` recorded as standing for `t`.
pub open spec fn with_inferred(c: SpecCtx, id: Id, t: SpecType) -> SpecCtx {
    SpecCtx { inferred_types: c.inferred_types.insert(id, t), ..c }
}

/// The context cut at `log` with the cut effects recorded again, or `None`
/// when `log` is not in it.
pub open spec fn close_at(c: SpecCtx, log: SpecLog) -> Option<SpecCtx> {
    if c.has_log(log) {
        Some(c.truncate_from(log).0.recover_effects(c.truncate_from(log).1))
    } else {
        None
    }
}

/// `s` followed by closing its context at `log`.
pub open spec fn then_close(s: Step, log: SpecLog) -> Step {
    match s {
        Some((Ok(c), st)) => match close_at(c, log) {
            Some(d) => Some((Ok(d), st)),
            None => None,
        },
        other => other,
    }
}

/// `s` followed by recording `e` at the end of its context.
pub open spec fn then_add_effect(s: Step, e: SpecEffectExpr) -> Step {
    match s {
        Some((Ok(c), st)) => Some((Ok(c.add(SpecLog::Effect(e))), st)),
        other => other,
    }
}

/// Whether the existential `id` can be solved by the monotype `t` at once:
/// it is unsolved in `c` and `t` is well formed in the context before it.
pub open spec fn solvable_at_once(c: SpecCtx, id: Id, t: SpecType) -> bool {
    monotype(t) && c.has_log(SpecLog::Existential(id)) && wf_type(
        c.truncate_from(SpecLog::Existential(id)).0.recover_effects(c.truncate_from(SpecLog::Existential(id)).1),
        t,
    )
}

/// The context with the existential `id` replaced by `logs`, or `None` when
/// `id` is not in it.
pub open spec fn replace_existential(c: SpecCtx, id: Id, logs: Seq<SpecLog>) -> Option<SpecCtx> {
    if c.has_log(SpecLog::Existential(id)) {
        Some(c.insert_in_place(SpecLog::Existential(id), logs))
    } else {
        None
    }
}

/// For a type with one component (array, set, label, brand), the same type
/// around `inner`.
pub open spec fn rewrap(t: SpecType, inner: SpecType) -> SpecType {
    match t {
        SpecType::Array(_) => SpecType::Array(Box::new(inner)),
        SpecType::SetOf(_) => SpecType::SetOf(Box::new(inner)),
        SpecType::Label { label, item: _ } => SpecType::Label { label, item: Box::new(inner) },
        SpecType::Brand { brand, item: _ } => SpecType::Brand { brand, item: Box::new(inner) },
        _ => t,
    }
}

/// The component of a type with one component.
pub open spec fn component(t: SpecType) -> SpecType {
    match t {
        SpecType::Array(x) => *x,
        SpecType::SetOf(x) => *x,
        SpecType::Label { label: _, item } => *item,
        SpecType::Brand { brand: _, item } => *item,
        _ => t,
    }
}

/// The existentials of `ids`.
pub open spec fn existentials(ids: Seq<Id>) -> Seq<SpecType> {
    Seq::new(ids.len(), |i: int| SpecType::Existential(ids[i]))
}

/// The entries that declare the existentials of `ids`, last first, followed
/// by the solution `solved` of `id`.
pub open spec fn declare_reversed(ids: Seq<Id>, id: Id, solved: SpecType) -> Seq<SpecLog> {
    Seq::new(ids.len(), |i: int| SpecLog::Existential(ids[ids.len() - 1 - i])).push(SpecLog::Solved(id, solved))
}

/// `sub` is a subtype of `ty` under `c`: the new context, or the error.
pub open spec fn subtype_spec(c: SpecCtx, st: SpecStore, sub: SpecType, ty: SpecType, fuel: nat) -> Step
    decreases fuel, 0nat, 0nat,
{
    if fuel == 0 {
        None
    } else {
        let f = (fuel - 1) as nat;
        let ok: Step = Some((Ok(c), st));
        let not_sub: Step = Some((Err(SpecTypeError::NotSubtype { sub, ty }), st));
        if sub is Variable && ty is Variable {
            if sub->Variable_0 == ty->Variable_0 { ok } else { not_sub }
        } else if sub is Number && ty is Number {
            ok
        } else if sub is String && ty is String {
            ok
        } else if sub is Existential && ty is Existential && sub->Existential_0 == ty->Existential_0 {
            ok
        } else if sub is Existential {
            if occurs(sub->Existential_0, ty) {
                Some((Err(SpecTypeError::CircularExistential { id: sub->Existential_0, ty }), st))
            } else {
                instantiate_subtype_spec(c, st, sub->Existential_0, ty, f)
            }
        } else if ty is Existential {
            if occurs(ty->Existential_0, sub) {
                Some((Err(SpecTypeError::CircularExistential { id: ty->Existential_0, ty }), st))
            } else {
                instantiate_supertype_spec(c, st, sub, ty->Existential_0, f)
            }
        } else if sub is Product && ty is Product {
            match all_any_spec(c, st, sub->Product_0, ty->Product_0, false, f) {
                Some((true, st2)) => Some((Ok(c), st2)),
                Some((false, st2)) => Some((Err(SpecTypeError::NotSubtype { sub, ty }), st2)),
                None => None,
            }
        } else if sub is Product {
            match first_subtype_spec(c, st, sub->Product_0, ty, false, f) {
                Some((Some(c2), st2)) => Some((Ok(c2), st2)),
                Some((None, st2)) => Some((Err(SpecTypeError::NotSubtype { sub, ty }), st2)),
                None => None,
            }
        } else if sub is Sum && ty is Sum {
            match all_any_spec(c, st, ty->Sum_0, sub->Sum_0, true, f) {
                Some((true, st2)) => Some((Ok(c), st2)),
                Some((false, st2)) => Some((Err(SpecTypeError::NotSubtype { sub, ty }), st2)),
                None => None,
            }
        } else if ty is Sum {
            match first_subtype_spec(c, st, ty->Sum_0, sub, true, f) {
                Some((Some(c2), st2)) => Some((Ok(c2), st2)),
                Some((None, st2)) => Some((Err(SpecTypeError::NotSubtype { sub, ty }), st2)),
                None => None,
            }
        } else if sub is Function && ty is Function {
            match subtype_spec(c, st, *sub->Function_parameter, *ty->Function_parameter, f) {
                Some((Ok(theta), st2)) => subtype_spec(
                    theta,
                    st2,
                    ctx_subst_type(theta, *ty->Function_body),
                    ctx_subst_type(theta, *sub->Function_body),
                    f,
                ),
                other => other,
            }
        } else if sub is Array && ty is Array {
            subtype_spec(c, st, *sub->Array_0, *ty->Array_0, f)
        } else if sub is SetOf && ty is SetOf {
            subtype_spec(c, st, *sub->SetOf_0, *ty->SetOf_0, f)
        } else if sub is ForAll {
            let a = st.next_id;
            then_close(
                subtype_spec(
                    c.add(SpecLog::Marker(a)).add(SpecLog::Existential(a)),
                    bump(st),
                    subst_type(*sub->ForAll_body, sub->variable, SpecType::Existential(a)),
                    ty,
                    f,
                ),
                SpecLog::Marker(a),
            )
        } else if ty is ForAll {
            then_close(
                subtype_spec(c.add(SpecLog::Variable(ty->variable)), st, sub, *ty->ForAll_body, f),
                SpecLog::Variable(ty->variable),
            )
        } else if ty is Label {
            subtype_spec(c, st, sub, *ty->Label_item, f)
        } else if sub is Label {
            subtype_spec(c, st, *sub->Label_item, ty, f)
        } else if sub is Brand {
            subtype_spec(c, st, *sub->Brand_item, ty, f)
        } else if sub is Infer {
            Some((Ok(with_inferred(c, sub->Infer_0, ty)), st))
        } else if ty is Infer {
            Some((Ok(with_inferred(c, ty->Infer_0, sub)), st))
        } else if sub is Effectful && ty is Effectful {
            then_add_effect(
                subtype_spec(c, st, *sub->Effectful_ty, *ty->Effectful_ty, f),
                SpecEffectExpr::Sub {
                    minuend: Box::new(sub->Effectful_effects),
                    subtrahend: Box::new(ty->Effectful_effects),
                },
            )
        } else if sub is Effectful {
            then_add_effect(subtype_spec(c, st, *sub->Effectful_ty, ty, f), sub->Effectful_effects)
        } else if ty is Effectful {
            subtype_spec(c, st, sub, *ty->Effectful_ty, f)
        } else {
            not_sub
        }
    }
}

/// Whether some type of `inner` is a supertype of `x` (a subtype of `x`
/// when `flip`), trying them in order; the store runs through the tries.
pub open spec fn any_of_spec(c: SpecCtx, st: SpecStore, x: SpecType, inner: Seq<SpecType>, flip: bool, fuel: nat) -> Option<(bool, SpecStore)>
    decreases fuel, 1nat, inner.len(),
{
    if inner.len() == 0 {
        Some((false, st))
    } else {
        let r = if flip { subtype_spec(c, st, inner[0], x, fuel) } else { subtype_spec(c, st, x, inner[0], fuel) };
        match r {
            Some((Ok(_), st2)) => Some((true, st2)),
            Some((Err(_), st2)) => any_of_spec(c, st2, x, inner.drop_first(), flip, fuel),
            None => None,
        }
    }
}

/// Whether [`any_of_spec`] holds for every type of `outer`, in order.
pub open spec fn all_any_spec(c: SpecCtx, st: SpecStore, outer: Seq<SpecType>, inner: Seq<SpecType>, flip: bool, fuel: nat) -> Option<(bool, SpecStore)>
    decreases fuel, 2nat, outer.len(),
{
    if outer.len() == 0 {
        Some((true, st))
    } else {
        match any_of_spec(c, st, outer[0], inner, flip, fuel) {
            Some((true, st2)) => all_any_spec(c, st2, outer.drop_first(), inner, flip, fuel),
            Some((false, st2)) => Some((false, st2)),
            None => None,
        }
    }
}

/// The context of the first candidate that is a subtype of `other` (a
/// supertype when `flip`).
pub open spec fn first_subtype_spec(c: SpecCtx, st: SpecStore, cands: Seq<SpecType>, other: SpecType, flip: bool, fuel: nat) -> Option<(Option<SpecCtx>, SpecStore)>
    decreases fuel, 1nat, cands.len(),
{
    if cands.len() == 0 {
        Some((None, st))
    } else {
        let r = if flip { subtype_spec(c, st, other, cands[0], fuel) } else { subtype_spec(c, st, cands[0], other, fuel) };
        match r {
            Some((Ok(c2), st2)) => Some((Some(c2), st2)),
            Some((Err(_), st2)) => first_subtype_spec(c, st2, cands.drop_first(), other, flip, fuel),
            None => None,
        }
    }
}

/// Instantiates each existential of `vars` against the type at the same
/// place of `types`: as a subtype when `as_sub`, else as a supertype.
pub open spec fn instantiate_all_spec(c: SpecCtx, st: SpecStore, vars: Seq<Id>, types: Seq<SpecType>, as_sub: bool, fuel: nat) -> Step
    decreases fuel, 1nat, types.len(),
{
    if types.len() == 0 || vars.len() == 0 {
        Some((Ok(c), st))
    } else {
        let r = if as_sub {
            instantiate_subtype_spec(c, st, vars[0], types[0], fuel)
        } else {
            instantiate_supertype_spec(c, st, types[0], vars[0], fuel)
        };
        match r {
            Some((Ok(c2), st2)) => instantiate_all_spec(c2, st2, vars.drop_first(), types.drop_first(), as_sub, fuel),
            other => other,
        }
    }
}

/// Solves `id` by a product (a sum unless `product`) of fresh existentials,
/// one for each type of `types`, and instantiates each against its type.
pub open spec fn composite_spec(c: SpecCtx, st: SpecStore, id: Id, types: Seq<SpecType>, product: bool, as_sub: bool, fuel: nat) -> Step
    decreases fuel, 2nat, 0nat,
{
    let vars = fresh_ids(st.next_id, types.len());
    let st1 = SpecStore { next_id: skip_ids(st.next_id, types.len()), ..st };
    let solved = if product { SpecType::Product(existentials(vars)) } else { SpecType::Sum(existentials(vars)) };
    match replace_existential(c, id, declare_reversed(vars, id, solved)) {
        Some(c1) => instantiate_all_spec(c1, st1, vars, types, as_sub, fuel),
        None => None,
    }
}

/// `s` followed by recording the type `t` of the solved existential `id`.
pub open spec fn then_store_solved(s: Step, c: SpecCtx, id: Id, t: SpecType) -> Step {
    match s {
        Some((Ok(c2), st2)) => Some((Ok(c2), store_solved(c, st2, id, t))),
        other => other,
    }
}

/// Solves the existential `id` so that it is a subtype of `sup`.
pub open spec fn instantiate_subtype_spec(c: SpecCtx, st: SpecStore, id: Id, sup: SpecType, fuel: nat) -> Step
    decreases fuel, 0nat, 0nat,
{
    if fuel == 0 {
        None
    } else {
        then_store_solved(instantiate_subtype_case(c, st, id, sup, (fuel - 1) as nat), c, id, sup)
    }
}

/// Solves the existential `id` so that it is a supertype of `sub`.
pub open spec fn instantiate_supertype_spec(c: SpecCtx, st: SpecStore, sub: SpecType, id: Id, fuel: nat) -> Step
    decreases fuel, 0nat, 0nat,
{
    if fuel == 0 {
        None
    } else {
        then_store_solved(instantiate_supertype_case(c, st, sub, id, (fuel - 1) as nat), c, id, sub)
    }
}

/// Solves `id` by a function between two fresh existentials, then
/// instantiates them against `parameter` and `body`: the parameter as a
/// supertype and the body as a subtype when `as_sub`, the other way round
/// otherwise.
pub open spec fn instantiate_function_spec(c: SpecCtx, st: SpecStore, id: Id, parameter: SpecType, body: SpecType, as_sub: bool, fuel: nat) -> Step
    decreases fuel, 2nat, 1nat,
{
    let a1 = st.next_id;
    let a2 = succ_id(a1);
    let solved = SpecType::Function {
        parameter: Box::new(SpecType::Existential(a1)),
        body: Box::new(SpecType::Existential(a2)),
    };
    match replace_existential(c, id, seq![SpecLog::Existential(a2), SpecLog::Existential(a1), SpecLog::Solved(id, solved)]) {
        Some(c1) => {
            let first = if as_sub {
                instantiate_supertype_spec(c1, bump(bump(st)), parameter, a1, fuel)
            } else {
                instantiate_subtype_spec(c1, bump(bump(st)), a1, parameter, fuel)
            };
            match first {
                Some((Ok(theta), st2)) => if as_sub {
                    instantiate_subtype_spec(theta, st2, a2, ctx_subst_type(theta, body), fuel)
                } else {
                    instantiate_supertype_spec(theta, st2, ctx_subst_type(theta, body), a2, fuel)
                },
                other => other,
            }
        },
        None => None,
    }
}

/// Solves `id` by the type `t` with one component around a fresh
/// existential, then instantiates that existential against the component:
/// as a subtype when `as_sub`, else as a supertype.
pub open spec fn instantiate_wrapped_spec(c: SpecCtx, st: SpecStore, id: Id, t: SpecType, as_sub: bool, fuel: nat) -> Step
    decreases fuel, 2nat, 1nat,
{
    let a = st.next_id;
    match replace_existential(c, id, seq![SpecLog::Existential(a), SpecLog::Solved(id, rewrap(t, SpecType::Existential(a)))]) {
        Some(c1) => if as_sub {
            instantiate_subtype_spec(c1, bump(st), a, component(t), fuel)
        } else {
            instantiate_supertype_spec(c1, bump(st), component(t), a, fuel)
        },
        None => None,
    }
}

/// The context with the hole `hole` standing for the existential `id`, and
/// `id` solved by `t`.
pub open spec fn solve_hole(c: SpecCtx, st: SpecStore, id: Id, hole: Id, t: SpecType) -> Step {
    match replace_existential(with_inferred(c, hole, SpecType::Existential(id)), id, seq![SpecLog::Solved(id, t)]) {
        Some(c2) => Some((Ok(c2), st)),
        None => None,
    }
}

/// The step of [`instantiate_subtype_spec`] before the solution is stored.
pub open spec fn instantiate_subtype_case(c: SpecCtx, st: SpecStore, id: Id, sup: SpecType, fuel: nat) -> Step
    decreases fuel, 3nat, 0nat,
{
    if solvable_at_once(c, id, sup) {
        Some((Ok(c.insert_in_place(SpecLog::Existential(id), seq![SpecLog::Solved(id, sup)])), st))
    } else if sup is Effectful {
        instantiate_subtype_spec(c, st, id, *sup->Effectful_ty, fuel)
    } else if sup is Function {
        instantiate_function_spec(c, st, id, *sup->Function_parameter, *sup->Function_body, true, fuel)
    } else if sup is ForAll {
        then_close(
            instantiate_subtype_spec(c.add(SpecLog::Variable(sup->variable)), st, id, *sup->ForAll_body, fuel),
            SpecLog::Variable(sup->variable),
        )
    } else if sup is Existential {
        let b = sup->Existential_0;
        match replace_existential(c, b, seq![SpecLog::Solved(b, SpecType::Existential(id))]) {
            Some(c1) => Some((Ok(c1), st)),
            None => None,
        }
    } else if sup is Product {
        composite_spec(c, st, id, sup->Product_0, true, true, fuel)
    } else if sup is Sum {
        composite_spec(c, st, id, sup->Sum_0, false, true, fuel)
    } else if sup is Array || sup is SetOf || sup is Label || sup is Brand {
        instantiate_wrapped_spec(c, st, id, sup, true, fuel)
    } else if sup is Infer {
        solve_hole(c, st, id, sup->Infer_0, sup)
    } else {
        Some((Err(SpecTypeError::NotInstantiableSubtype { ty: sup }), st))
    }
}

/// The step of [`instantiate_supertype_spec`] before the solution is stored.
/// Unlike its counterpart it has no case for sets.
pub open spec fn instantiate_supertype_case(c: SpecCtx, st: SpecStore, sub: SpecType, id: Id, fuel: nat) -> Step
    decreases fuel, 3nat, 0nat,
{
    if solvable_at_once(c, id, sub) {
        Some((Ok(c.insert_in_place(SpecLog::Existential(id), seq![SpecLog::Solved(id, sub)])), st))
    } else if sub is Effectful {
        then_add_effect(instantiate_supertype_spec(c, st, *sub->Effectful_ty, id, fuel), sub->Effectful_effects)
    } else if sub is Function {
        instantiate_function_spec(c, st, id, *sub->Function_parameter, *sub->Function_body, false, fuel)
    } else if sub is ForAll {
        let v = sub->variable;
        then_close(
            instantiate_supertype_spec(
                c.add(SpecLog::Marker(v)).add(SpecLog::Existential(v)),
                st,
                subst_type(*sub->ForAll_body, v, SpecType::Existential(v)),
                id,
                fuel,
            ),
            SpecLog::Marker(v),
        )
    } else if sub is Existential {
        match replace_existential(c, id, seq![SpecLog::Solved(id, sub)]) {
            Some(c1) => Some((Ok(c1), st)),
            None => None,
        }
    } else if sub is Product {
        composite_spec(c, st, id, sub->Product_0, true, false, fuel)
    } else if sub is Sum {
        composite_spec(c, st, id, sub->Sum_0, false, false, fuel)
    } else if sub is Array || sub is Label || sub is Brand {
        instantiate_wrapped_spec(c, st, id, sub, false, fuel)
    } else if sub is Infer {
        solve_hole(c, st, id, sub->Infer_0, sub)
    } else {
        Some((Err(SpecTypeError::NotInstantiableSupertype { ty: sub }), st))
    }
}

} // verus!
