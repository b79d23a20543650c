//! Laws of subtyping and instantiation.
use vstd::prelude::*;

use crate::ctx::{SpecCtx, SpecLog, SpecStore, SpecTypeError};
use crate::subtype_spec::{
    all_any_spec, any_of_spec, first_subtype_spec, instantiate_subtype_spec, instantiate_supertype_spec,
    instantiate_subtype_case, instantiate_supertype_case, solvable_at_once, store_solved, subtype_spec, Step,
};
use crate::substitute::occurs;
use crate::substitute_from_ctx::ctx_subst_type;
use crate::ty::{Id, SpecType};

verus! {

/// A type built from numbers, strings, products, sums, functions, arrays and
/// sets alone.
pub open spec fn plain(t: SpecType) -> bool
    decreases t,
{
    match t {
        SpecType::Number => true,
        SpecType::String => true,
        SpecType::Product(s) => plain_seq(s),
        SpecType::Sum(s) => plain_seq(s),
        SpecType::Function { parameter, body } => plain(*parameter) && plain(*body),
        SpecType::Array(x) => plain(*x),
        SpecType::SetOf(x) => plain(*x),
        _ => false,
    }
}

pub open spec fn plain_seq(s: Seq<SpecType>) -> bool
    decreases s,
{
    if s.len() == 0 { true } else { plain(s[0]) && plain_seq(s.subrange(1, s.len() as int)) }
}

/// The height of a type as a tree.
pub open spec fn height(t: SpecType) -> nat
    decreases t,
{
    match t {
        SpecType::Product(s) => 1 + height_seq(s),
        SpecType::Sum(s) => 1 + height_seq(s),
        SpecType::Function { parameter, body } => 1 + if height(*parameter) < height(*body) {
            height(*body)
        } else {
            height(*parameter)
        },
        SpecType::Array(x) => 1 + height(*x),
        SpecType::SetOf(x) => 1 + height(*x),
        _ => 1,
    }
}

/// The largest height in `s`.
pub open spec fn height_seq(s: Seq<SpecType>) -> nat
    decreases s,
{
    if s.len() == 0 {
        0
    } else {
        let h = height(s[0]);
        let rest = height_seq(s.subrange(1, s.len() as int));
        if h < rest { rest } else { h }
    }
}

proof fn lemma_plain_seq(s: Seq<SpecType>)
    requires
        plain_seq(s),
    ensures
        forall|i: int| 0 <= i < s.len() ==> plain(#[trigger] s[i]) && height(s[i]) <= height_seq(s),
        s.len() > 0 ==> plain_seq(s.drop_first()) && height_seq(s.drop_first()) <= height_seq(s),
    decreases s.len(),
{
    if s.len() > 0 {
        let rest = s.subrange(1, s.len() as int);
        assert(rest =~= s.drop_first());
        lemma_plain_seq(rest);
        assert forall|i: int| 0 <= i < s.len() implies plain(#[trigger] s[i]) && height(s[i]) <= height_seq(s) by {
            if i > 0 {
                assert(s[i] == rest[i - 1]);
            }
        }
    }
}

/// Substituting from a context leaves a plain type as it is.
pub proof fn lemma_ctx_subst_plain(c: SpecCtx, t: SpecType)
    requires
        plain(t),
    ensures
        ctx_subst_type(c, t) == t,
    decreases t,
{
    match t {
        SpecType::Product(s) => {
            lemma_plain_seq(s);
            assert forall|i: int| 0 <= i < s.len() implies ctx_subst_type(c, s[i]) == s[i] by {
                lemma_ctx_subst_plain(c, s[i]);
            }
            assert(ctx_subst_type(c, t)->Product_0 =~= s);
        },
        SpecType::Sum(s) => {
            lemma_plain_seq(s);
            assert forall|i: int| 0 <= i < s.len() implies ctx_subst_type(c, s[i]) == s[i] by {
                lemma_ctx_subst_plain(c, s[i]);
            }
            assert(ctx_subst_type(c, t)->Sum_0 =~= s);
        },
        SpecType::Function { parameter, body } => {
            lemma_ctx_subst_plain(c, *parameter);
            lemma_ctx_subst_plain(c, *body);
        },
        SpecType::Array(x) => lemma_ctx_subst_plain(c, *x),
        SpecType::SetOf(x) => lemma_ctx_subst_plain(c, *x),
        _ => {},
    }
}

/// The step ends with the store `st`, and with the context `c` if it
/// succeeds.
pub open spec fn pure_step(r: Step, c: SpecCtx, st: SpecStore) -> bool {
    match r {
        Some((Ok(c2), st2)) => c2 == c && st2 == st,
        Some((Err(_), st2)) => st2 == st,
        None => false,
    }
}

/// Subtyping between plain types changes neither the context nor the store.
pub proof fn law_plain_subtype_pure(c: SpecCtx, st: SpecStore, a: SpecType, b: SpecType, fuel: nat)
    requires
        plain(a),
        plain(b),
        fuel > height(a) + height(b),
    ensures
        pure_step(subtype_spec(c, st, a, b, fuel), c, st),
    decreases fuel, 0nat, 0nat,
{
    let f = (fuel - 1) as nat;
    match (a, b) {
        (SpecType::Product(x), SpecType::Product(y)) => {
            lemma_plain_seq(x);
            lemma_plain_seq(y);
            lemma_all_any_pure(c, st, x, y, false, f);
        },
        (SpecType::Product(x), _) => {
            lemma_plain_seq(x);
            lemma_first_pure(c, st, x, b, false, f);
        },
        (SpecType::Sum(x), SpecType::Sum(y)) => {
            lemma_plain_seq(x);
            lemma_plain_seq(y);
            lemma_all_any_pure(c, st, y, x, true, f);
        },
        (_, SpecType::Sum(y)) => {
            lemma_plain_seq(y);
            lemma_first_pure(c, st, y, a, true, f);
        },
        (SpecType::Function { parameter: p1, body: b1 }, SpecType::Function { parameter: p2, body: b2 }) => {
            law_plain_subtype_pure(c, st, *p1, *p2, f);
            lemma_ctx_subst_plain(c, *b1);
            lemma_ctx_subst_plain(c, *b2);
            law_plain_subtype_pure(c, st, *b2, *b1, f);
        },
        (SpecType::Array(x), SpecType::Array(y)) => law_plain_subtype_pure(c, st, *x, *y, f),
        (SpecType::SetOf(x), SpecType::SetOf(y)) => law_plain_subtype_pure(c, st, *x, *y, f),
        _ => {},
    }
}

proof fn lemma_any_of_pure(c: SpecCtx, st: SpecStore, x: SpecType, inner: Seq<SpecType>, flip: bool, fuel: nat)
    requires
        plain(x),
        plain_seq(inner),
        fuel > height(x) + height_seq(inner),
    ensures
        any_of_spec(c, st, x, inner, flip, fuel) matches Some((_, st2)) && st2 == st,
    decreases fuel, 1nat, inner.len(),
{
    if inner.len() > 0 {
        lemma_plain_seq(inner);
        if flip {
            law_plain_subtype_pure(c, st, inner[0], x, fuel);
        } else {
            law_plain_subtype_pure(c, st, x, inner[0], fuel);
        }
        lemma_any_of_pure(c, st, x, inner.drop_first(), flip, fuel);
    }
}

proof fn lemma_all_any_pure(c: SpecCtx, st: SpecStore, outer: Seq<SpecType>, inner: Seq<SpecType>, flip: bool, fuel: nat)
    requires
        plain_seq(outer),
        plain_seq(inner),
        fuel > height_seq(outer) + height_seq(inner),
    ensures
        all_any_spec(c, st, outer, inner, flip, fuel) matches Some((_, st2)) && st2 == st,
    decreases fuel, 2nat, outer.len(),
{
    if outer.len() > 0 {
        lemma_plain_seq(outer);
        lemma_any_of_pure(c, st, outer[0], inner, flip, fuel);
        lemma_all_any_pure(c, st, outer.drop_first(), inner, flip, fuel);
    }
}

proof fn lemma_first_pure(c: SpecCtx, st: SpecStore, cands: Seq<SpecType>, other: SpecType, flip: bool, fuel: nat)
    requires
        plain_seq(cands),
        plain(other),
        fuel > height_seq(cands) + height(other),
    ensures
        first_subtype_spec(c, st, cands, other, flip, fuel) matches Some((found, st2)) && st2 == st
            && (found matches Some(c2) ==> c2 == c),
    decreases fuel, 1nat, cands.len(),
{
    if cands.len() > 0 {
        lemma_plain_seq(cands);
        if flip {
            law_plain_subtype_pure(c, st, other, cands[0], fuel);
        } else {
            law_plain_subtype_pure(c, st, cands[0], other, fuel);
        }
        lemma_first_pure(c, st, cands.drop_first(), other, flip, fuel);
    }
}

/// Every plain type is a subtype of itself, under any context, and checking
/// it changes neither the context nor the store.
pub proof fn law_subtype_reflexive(c: SpecCtx, st: SpecStore, t: SpecType, fuel: nat)
    requires
        plain(t),
        fuel > 2 * height(t),
    ensures
        subtype_spec(c, st, t, t, fuel) == Some((Ok::<SpecCtx, SpecTypeError>(c), st)),
    decreases fuel, 0nat, 0nat,
{
    let f = (fuel - 1) as nat;
    match t {
        SpecType::Product(s) => {
            lemma_plain_seq(s);
            lemma_all_any_refl(c, st, s, s, false, f);
        },
        SpecType::Sum(s) => {
            lemma_plain_seq(s);
            lemma_all_any_refl(c, st, s, s, true, f);
        },
        SpecType::Function { parameter, body } => {
            law_subtype_reflexive(c, st, *parameter, f);
            lemma_ctx_subst_plain(c, *body);
            law_subtype_reflexive(c, st, *body, f);
        },
        SpecType::Array(x) => law_subtype_reflexive(c, st, *x, f),
        SpecType::SetOf(x) => law_subtype_reflexive(c, st, *x, f),
        _ => {},
    }
}

proof fn lemma_any_of_refl(c: SpecCtx, st: SpecStore, x: SpecType, inner: Seq<SpecType>, flip: bool, fuel: nat, k: int)
    requires
        plain(x),
        plain_seq(inner),
        fuel > height(x) + height_seq(inner),
        fuel > 2 * height(x),
        0 <= k < inner.len(),
        inner[k] == x,
    ensures
        any_of_spec(c, st, x, inner, flip, fuel) == Some((true, st)),
    decreases fuel, 1nat, inner.len(),
{
    lemma_plain_seq(inner);
    if flip {
        law_plain_subtype_pure(c, st, inner[0], x, fuel);
    } else {
        law_plain_subtype_pure(c, st, x, inner[0], fuel);
    }
    if k == 0 {
        law_subtype_reflexive(c, st, x, fuel);
    } else {
        assert(inner.drop_first()[k - 1] == x);
        lemma_any_of_refl(c, st, x, inner.drop_first(), flip, fuel, k - 1);
    }
}

proof fn lemma_all_any_refl(c: SpecCtx, st: SpecStore, outer: Seq<SpecType>, inner: Seq<SpecType>, flip: bool, fuel: nat)
    requires
        plain_seq(outer),
        plain_seq(inner),
        fuel > height_seq(outer) + height_seq(inner),
        fuel > 2 * height_seq(outer),
        forall|i: int| 0 <= i < outer.len() ==> inner.contains(#[trigger] outer[i]),
    ensures
        all_any_spec(c, st, outer, inner, flip, fuel) == Some((true, st)),
    decreases fuel, 2nat, outer.len(),
{
    if outer.len() > 0 {
        lemma_plain_seq(outer);
        assert(inner.contains(outer[0]));
        let k = choose|k: int| 0 <= k < inner.len() && inner[k] == outer[0];
        lemma_any_of_refl(c, st, outer[0], inner, flip, fuel, k);
        assert forall|i: int| 0 <= i < outer.drop_first().len() implies inner.contains(#[trigger] outer.drop_first()[i]) by {
            assert(outer.drop_first()[i] == outer[i + 1]);
        }
        lemma_all_any_refl(c, st, outer.drop_first(), inner, flip, fuel);
    }
}

/// A label is transparent to subtyping: a plain type that is neither a
/// product nor a sum is a subtype of itself labelled, and the labelled type a
/// subtype of it.
pub proof fn law_label_transparent(c: SpecCtx, st: SpecStore, label: Seq<char>, t: SpecType, fuel: nat)
    requires
        plain(t),
        !(t is Product),
        !(t is Sum),
        fuel > 2 * height(t) + 1,
    ensures
        subtype_spec(c, st, t, SpecType::Label { label, item: Box::new(t) }, fuel)
            == Some((Ok::<SpecCtx, SpecTypeError>(c), st)),
        subtype_spec(c, st, SpecType::Label { label, item: Box::new(t) }, t, fuel)
            == Some((Ok::<SpecCtx, SpecTypeError>(c), st)),
{
    law_subtype_reflexive(c, st, t, (fuel - 1) as nat);
}

/// A brand is one way: a branded plain type that is neither a product nor a
/// sum is a subtype of the type without the brand, but the type without the
/// brand is not a subtype of the branded one.
pub proof fn law_brand_one_way(c: SpecCtx, st: SpecStore, brand: Seq<char>, t: SpecType, fuel: nat)
    requires
        plain(t),
        !(t is Product),
        !(t is Sum),
        fuel > 2 * height(t) + 1,
    ensures
        subtype_spec(c, st, SpecType::Brand { brand, item: Box::new(t) }, t, fuel)
            == Some((Ok::<SpecCtx, SpecTypeError>(c), st)),
        subtype_spec(c, st, t, SpecType::Brand { brand, item: Box::new(t) }, fuel) == Some((
            Err::<SpecCtx, SpecTypeError>(SpecTypeError::NotSubtype {
                sub: t,
                ty: SpecType::Brand { brand, item: Box::new(t) },
            }),
            st,
        )),
{
    law_subtype_reflexive(c, st, t, (fuel - 1) as nat);
}

/// An unsolved existential against a monotype that is well formed before it
/// is solved by that type in place, and the type is stored for it; this holds
/// in both directions of instantiation.
pub proof fn law_instantiate_solves(c: SpecCtx, st: SpecStore, id: Id, t: SpecType, fuel: nat)
    requires
        solvable_at_once(c, id, t),
        fuel > 0,
    ensures
        instantiate_subtype_spec(c, st, id, t, fuel) == Some((
            Ok::<SpecCtx, SpecTypeError>(c.insert_in_place(SpecLog::Existential(id), seq![SpecLog::Solved(id, t)])),
            store_solved(c, st, id, t),
        )),
        instantiate_supertype_spec(c, st, t, id, fuel) == Some((
            Ok::<SpecCtx, SpecTypeError>(c.insert_in_place(SpecLog::Existential(id), seq![SpecLog::Solved(id, t)])),
            store_solved(c, st, id, t),
        )),
{
}

/// An existential is never solved by a type it occurs in: subtyping it
/// against such a type, on either side, fails with a circularity and
/// leaves the store as it was.
pub proof fn law_occurs_check(c: SpecCtx, st: SpecStore, id: Id, t: SpecType, fuel: nat)
    requires
        occurs(id, t),
        t != SpecType::Existential(id),
        fuel > 0,
    ensures
        subtype_spec(c, st, SpecType::Existential(id), t, fuel) == Some((
            Err::<SpecCtx, SpecTypeError>(SpecTypeError::CircularExistential { id, ty: t }),
            st,
        )),
        !(t is Existential) ==> subtype_spec(c, st, t, SpecType::Existential(id), fuel) == Some((
            Err::<SpecCtx, SpecTypeError>(SpecTypeError::CircularExistential {
                id,
                ty: SpecType::Existential(id),
            }),
            st,
        )),
{
}

/// The subtyping of `a` by `b` succeeds.
pub open spec fn is_sub(c: SpecCtx, st: SpecStore, a: SpecType, b: SpecType, fuel: nat) -> bool {
    subtype_spec(c, st, a, b, fuel) matches Some((Ok(_), _))
}

/// `x` is a subtype of `y`, or, when `flip`, `y` of `x`.
pub open spec fn related(c: SpecCtx, st: SpecStore, x: SpecType, y: SpecType, flip: bool, fuel: nat) -> bool {
    if flip { is_sub(c, st, y, x, fuel) } else { is_sub(c, st, x, y, fuel) }
}

/// Some member of `inner` is related to `x`.
pub open spec fn some_member(c: SpecCtx, st: SpecStore, x: SpecType, inner: Seq<SpecType>, flip: bool, fuel: nat) -> bool {
    exists|j: int| 0 <= j < inner.len() && related(c, st, x, #[trigger] inner[j], flip, fuel)
}

proof fn lemma_any_of_exact(c: SpecCtx, st: SpecStore, x: SpecType, inner: Seq<SpecType>, flip: bool, fuel: nat)
    requires
        plain(x),
        plain_seq(inner),
        fuel > height(x) + height_seq(inner),
    ensures
        any_of_spec(c, st, x, inner, flip, fuel) == Some((some_member(c, st, x, inner, flip, fuel), st)),
    decreases inner.len(),
{
    if inner.len() > 0 {
        lemma_plain_seq(inner);
        if flip {
            law_plain_subtype_pure(c, st, inner[0], x, fuel);
        } else {
            law_plain_subtype_pure(c, st, x, inner[0], fuel);
        }
        let rest = inner.drop_first();
        lemma_any_of_exact(c, st, x, rest, flip, fuel);
        if related(c, st, x, inner[0], flip, fuel) {
            assert(some_member(c, st, x, inner, flip, fuel));
        } else {
            if some_member(c, st, x, inner, flip, fuel) {
                let j = choose|j: int| 0 <= j < inner.len() && related(c, st, x, #[trigger] inner[j], flip, fuel);
                assert(j > 0);
                assert(rest[j - 1] == inner[j]);
            }
            if some_member(c, st, x, rest, flip, fuel) {
                let j = choose|j: int| 0 <= j < rest.len() && related(c, st, x, #[trigger] rest[j], flip, fuel);
                assert(inner[j + 1] == rest[j]);
            }
        }
    } else {
        assert(!some_member(c, st, x, inner, flip, fuel));
    }
}

proof fn lemma_all_any_exact(c: SpecCtx, st: SpecStore, outer: Seq<SpecType>, inner: Seq<SpecType>, flip: bool, fuel: nat)
    requires
        plain_seq(outer),
        plain_seq(inner),
        fuel > height_seq(outer) + height_seq(inner),
    ensures
        all_any_spec(c, st, outer, inner, flip, fuel) == Some(
            (forall|i: int| 0 <= i < outer.len() ==> some_member(c, st, #[trigger] outer[i], inner, flip, fuel), st),
        ),
    decreases outer.len(),
{
    if outer.len() > 0 {
        lemma_plain_seq(outer);
        lemma_any_of_exact(c, st, outer[0], inner, flip, fuel);
        let rest = outer.drop_first();
        lemma_all_any_exact(c, st, rest, inner, flip, fuel);
        if some_member(c, st, outer[0], inner, flip, fuel) {
            if forall|i: int| 0 <= i < rest.len() ==> some_member(c, st, #[trigger] rest[i], inner, flip, fuel) {
                assert forall|i: int| 0 <= i < outer.len() implies some_member(c, st, #[trigger] outer[i], inner, flip, fuel) by {
                    if i > 0 {
                        assert(outer[i] == rest[i - 1]);
                    }
                }
            } else {
                let i = choose|i: int| 0 <= i < rest.len() && !some_member(c, st, #[trigger] rest[i], inner, flip, fuel);
                assert(outer[i + 1] == rest[i]);
            }
        }
    }
}

/// A product is a subtype of another exactly when every member of the first
/// is a subtype of some member of the second; a sum is a subtype of another
/// exactly when every member of the second has some member of the first as
/// a subtype. A member left without a match makes the whole fail.
pub proof fn law_composite_subtype_members(c: SpecCtx, st: SpecStore, ss: Seq<SpecType>, ts: Seq<SpecType>, fuel: nat)
    requires
        plain_seq(ss),
        plain_seq(ts),
        fuel > 2 + height_seq(ss) + height_seq(ts),
    ensures
        is_sub(c, st, SpecType::Product(ss), SpecType::Product(ts), fuel) <==> (forall|i: int|
            0 <= i < ss.len() ==> exists|j: int| 0 <= j < ts.len() && is_sub(c, st, #[trigger] ss[i], #[trigger] ts[j], (fuel - 1) as nat)),
        is_sub(c, st, SpecType::Sum(ss), SpecType::Sum(ts), fuel) <==> (forall|j: int|
            0 <= j < ts.len() ==> exists|i: int| 0 <= i < ss.len() && is_sub(c, st, #[trigger] ss[i], #[trigger] ts[j], (fuel - 1) as nat)),
{
    let f = (fuel - 1) as nat;
    lemma_all_any_exact(c, st, ss, ts, false, f);
    lemma_all_any_exact(c, st, ts, ss, true, f);
    assert forall|i: int| 0 <= i < ss.len() implies (some_member(c, st, #[trigger] ss[i], ts, false, f) <==> exists|j: int|
        0 <= j < ts.len() && is_sub(c, st, ss[i], #[trigger] ts[j], f)) by {
        if some_member(c, st, ss[i], ts, false, f) {
            let j = choose|j: int| 0 <= j < ts.len() && related(c, st, ss[i], #[trigger] ts[j], false, f);
            assert(is_sub(c, st, ss[i], ts[j], f));
        }
        if exists|j: int| 0 <= j < ts.len() && is_sub(c, st, ss[i], #[trigger] ts[j], f) {
            let j = choose|j: int| 0 <= j < ts.len() && is_sub(c, st, ss[i], #[trigger] ts[j], f);
            assert(related(c, st, ss[i], ts[j], false, f));
        }
    }
    assert forall|j: int| 0 <= j < ts.len() implies (some_member(c, st, #[trigger] ts[j], ss, true, f) <==> exists|i: int|
        0 <= i < ss.len() && is_sub(c, st, #[trigger] ss[i], ts[j], f)) by {
        if some_member(c, st, ts[j], ss, true, f) {
            let i = choose|i: int| 0 <= i < ss.len() && related(c, st, ts[j], #[trigger] ss[i], true, f);
            assert(is_sub(c, st, ss[i], ts[j], f));
        }
        if exists|i: int| 0 <= i < ss.len() && is_sub(c, st, #[trigger] ss[i], ts[j], f) {
            let i = choose|i: int| 0 <= i < ss.len() && is_sub(c, st, #[trigger] ss[i], ts[j], f);
            assert(related(c, st, ts[j], ss[i], true, f));
        }
    }
}

/// Between plain function types, subtyping checks the parameters in the
/// order given and the bodies the other way round: it succeeds exactly when
/// the first parameter is a subtype of the second and the second body a
/// subtype of the first.
pub proof fn law_function_subtype_parts(c: SpecCtx, st: SpecStore, p1: SpecType, b1: SpecType, p2: SpecType, b2: SpecType, fuel: nat)
    requires
        plain(p1),
        plain(b1),
        plain(p2),
        plain(b2),
        fuel > 2 + height(p1) + height(b1) + height(p2) + height(b2),
    ensures
        is_sub(
            c,
            st,
            SpecType::Function { parameter: Box::new(p1), body: Box::new(b1) },
            SpecType::Function { parameter: Box::new(p2), body: Box::new(b2) },
            fuel,
        ) <==> (is_sub(c, st, p1, p2, (fuel - 1) as nat) && is_sub(c, st, b2, b1, (fuel - 1) as nat)),
{
    let f = (fuel - 1) as nat;
    law_plain_subtype_pure(c, st, p1, p2, f);
    lemma_ctx_subst_plain(c, b1);
    lemma_ctx_subst_plain(c, b2);
    law_plain_subtype_pure(c, st, b2, b1, f);
}

} // verus!
