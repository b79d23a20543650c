//! Small constructions on types used by inference: attaching effects and
//! summing types.
use vstd::prelude::*;

use crate::ctx::Ctx;
use crate::sorted::{canonical, sort_dedup, views};
use crate::ty::{clone_types, effects_view, lemma_view_effects, lemma_view_product, types_view, Effect, EffectExpr, SpecEffect, SpecEffectExpr, SpecType, Type};

verus! {

/// `ty` carrying the list of effects `effects`, unless the list is empty.
pub open spec fn with_effects_spec(ty: SpecType, effects: Seq<SpecEffect>) -> SpecType {
    if effects.len() == 0 {
        ty
    } else {
        SpecType::Effectful { ty: Box::new(ty), effects: SpecEffectExpr::Effects(effects) }
    }
}

/// `ty` carrying the list of effects `effects`, unless the list is empty.
pub fn with_effects(ty: Type, effects: Vec<Effect>) -> (r: Type)
    ensures
        r@ == with_effects_spec(ty@, effects_view(effects@)),
{
    if effects.len() == 0 {
        ty
    } else {
        proof { lemma_view_effects(effects); }
        Type::Effectful { ty: Box::new(ty), effects: EffectExpr::Effects(effects) }
    }
}

/// The members of the sums of `s`, and the other types of `s` themselves,
/// in order.
pub open spec fn flatten_sums(s: Seq<SpecType>) -> Seq<SpecType>
    decreases s.len(),
{
    if s.len() == 0 {
        seq![]
    } else {
        flatten_sums(s.drop_last()) + sum_members(s.last())
    }
}

/// The members of a sum; any other type is its own single member.
pub open spec fn sum_members(t: SpecType) -> Seq<SpecType> {
    match t {
        SpecType::Sum(members) => members,
        other => seq![other],
    }
}

/// The sum of the types of `s`: the members of all of them, sorted without
/// duplicates; a single member stands alone.
pub open spec fn sum_all_spec(s: Seq<SpecType>) -> SpecType {
    let members = canonical::<Type>(flatten_sums(s));
    if members.len() == 1 { members[0] } else { SpecType::Sum(members) }
}

/// The sum of `types`, as [`sum_all_spec`] says.
pub fn sum_all(_ctx: &Ctx, types: Vec<Type>) -> (r: Type)
    ensures
        r@ == sum_all_spec(types_view(types@)),
{
    let ghost s = types_view(types@);
    let mut flat: Vec<Type> = Vec::new();
    let mut i: usize = 0;
    while i < types.len()
        invariant
            i <= types@.len(),
            s == types_view(types@),
            types_view(flat@) == flatten_sums(s.subrange(0, i as int)),
        decreases types@.len() - i,
    {
        let ghost before_flat = types_view(flat@);
        proof {
            assert(s.subrange(0, i + 1).drop_last() =~= s.subrange(0, i as int));
            assert(s.subrange(0, i + 1).last() == types@[i as int]@);
        }
        match &types[i] {
            Type::Sum(members) => {
                proof { lemma_view_product(*members); }
                let mut m = clone_types(members);
                let ghost mv = types_view(m@);
                flat.append(&mut m);
                proof { assert(types_view(flat@) =~= before_flat + mv); }
            },
            other => {
                let o = other.clone_type();
                let ghost ov = o@;
                flat.push(o);
                proof { assert(types_view(flat@) =~= before_flat + seq![ov]); }
            },
        }
        i += 1;
    }
    proof {
        assert(s.subrange(0, s.len() as int) =~= s);
        assert(views(flat@) =~= types_view(flat@));
    }
    let mut sum = sort_dedup(flat);
    proof {
        assert(views(sum@) =~= types_view(sum@));
    }
    if sum.len() == 1 {
        let ghost v = types_view(sum@);
        match sum.pop() {
            Some(t) => {
                assert(v[0] == t@);
                t
            },
            None => Type::Number,
        }
    } else {
        proof { lemma_view_product(sum); }
        Type::Sum(sum)
    }
}

/// What it is to be among the flattened members of `s`.
pub proof fn lemma_flatten_sums_contains(s: Seq<SpecType>, x: SpecType)
    ensures
        flatten_sums(s).contains(x) <==> exists|i: int| 0 <= i < s.len() && sum_members(#[trigger] s[i]).contains(x),
    decreases s.len(),
{
    if s.len() > 0 {
        let init = s.drop_last();
        lemma_flatten_sums_contains(init, x);
        let tail = sum_members(s.last());
        assert(flatten_sums(s) == flatten_sums(init) + tail);
        if flatten_sums(s).contains(x) {
            let k = choose|k: int| 0 <= k < flatten_sums(s).len() && flatten_sums(s)[k] == x;
            if k < flatten_sums(init).len() {
                assert(flatten_sums(init)[k] == x);
                let i = choose|i: int| 0 <= i < init.len() && sum_members(#[trigger] init[i]).contains(x);
                assert(s[i] == init[i]);
            } else {
                assert(tail[k - flatten_sums(init).len()] == x);
                assert(sum_members(s[s.len() - 1]).contains(x));
            }
        }
        if exists|i: int| 0 <= i < s.len() && sum_members(#[trigger] s[i]).contains(x) {
            let i = choose|i: int| 0 <= i < s.len() && sum_members(#[trigger] s[i]).contains(x);
            if i < s.len() - 1 {
                assert(init[i] == s[i]);
                let k = choose|k: int| 0 <= k < flatten_sums(init).len() && flatten_sums(init)[k] == x;
                assert(flatten_sums(s)[k] == x);
            } else {
                let k = choose|k: int| 0 <= k < tail.len() && tail[k] == x;
                assert(flatten_sums(s)[flatten_sums(init).len() + k] == x);
            }
        }
    }
}

/// The sum of types depends only on which types are summed: neither their
/// order nor repetitions matter.
pub proof fn law_sum_all_order_free(s1: Seq<SpecType>, s2: Seq<SpecType>)
    requires
        crate::sorted::same_elements(s1, s2),
    ensures
        sum_all_spec(s1) == sum_all_spec(s2),
{
    assert forall|x: SpecType| flatten_sums(s1).contains(x) <==> flatten_sums(s2).contains(x) by {
        lemma_flatten_sums_contains(s1, x);
        lemma_flatten_sums_contains(s2, x);
        if flatten_sums(s1).contains(x) {
            let i = choose|i: int| 0 <= i < s1.len() && sum_members(#[trigger] s1[i]).contains(x);
            assert(s1.contains(s1[i]));
            let j = choose|j: int| 0 <= j < s2.len() && s2[j] == s1[i];
            assert(s2[j] == s1[i]);
        }
        if flatten_sums(s2).contains(x) {
            let i = choose|i: int| 0 <= i < s2.len() && sum_members(#[trigger] s2[i]).contains(x);
            assert(s2.contains(s2[i]));
            let j = choose|j: int| 0 <= j < s1.len() && s1[j] == s2[i];
            assert(s1[j] == s2[i]);
        }
    }
    crate::sorted::lemma_canonical::<Type>(flatten_sums(s1));
    crate::sorted::lemma_canonical::<Type>(flatten_sums(s2));
    crate::sorted::lemma_canonical_of_same_elements::<Type>(
        canonical::<Type>(flatten_sums(s1)),
        flatten_sums(s2),
    );
}

} // verus!
