//! Laws of the simplification of effect expressions built from lists of
//! effects, sums and differences.
use vstd::prelude::*;

use crate::effect_expr::{
    effects_minus, expr_is_empty, lemma_simp_effects_pure, listed_effects, non_empty, non_lists, pure_effects, pure_type,
    simp_effects, simp_expr, simp_exprs, SIMPLIFY_DEPTH,
};
use crate::sorted::{canonical, lemma_canonical, lemma_canonical_of_same_elements, same_elements, strictly_sorted, Ordered};
use crate::ty::{Effect, EffectExpr, SpecEffect, SpecEffectExpr};

verus! {

/// The expression is built from lists of effects whose types have no
/// effectful part, from sums and from differences: no application.
pub open spec fn plain_expr(e: SpecEffectExpr) -> bool
    decreases e, 0nat,
{
    match e {
        SpecEffectExpr::Effects(s) => pure_effects(s),
        SpecEffectExpr::Add(s) => plain_exprs(s),
        SpecEffectExpr::Sub { minuend, subtrahend } => plain_expr(*minuend) && plain_expr(*subtrahend),
        SpecEffectExpr::Apply { .. } => false,
    }
}

pub open spec fn plain_exprs(s: Seq<SpecEffectExpr>) -> bool
    decreases s, s.len(),
{
    if s.len() == 0 { true } else { plain_exprs(s.drop_last()) && plain_expr(s.last()) }
}

/// The nesting depth of an effect expression; a list of effects has depth 1.
pub open spec fn depth(e: SpecEffectExpr) -> nat
    decreases e, 0nat,
{
    match e {
        SpecEffectExpr::Effects(_) => 1,
        SpecEffectExpr::Add(s) => 1 + depths(s),
        SpecEffectExpr::Sub { minuend, subtrahend } => {
            let a = depth(*minuend);
            let b = depth(*subtrahend);
            1 + if a >= b { a } else { b }
        },
        SpecEffectExpr::Apply { .. } => 1,
    }
}

/// The greatest depth of the expressions of `s`; 0 for none.
pub open spec fn depths(s: Seq<SpecEffectExpr>) -> nat
    decreases s, s.len(),
{
    if s.len() == 0 {
        0
    } else {
        let a = depths(s.drop_last());
        let b = depth(s.last());
        if a >= b { a } else { b }
    }
}

proof fn lemma_plain_exprs(s: Seq<SpecEffectExpr>)
    ensures
        plain_exprs(s) <==> forall|i: int| 0 <= i < s.len() ==> plain_expr(#[trigger] s[i]),
    decreases s.len(),
{
    if s.len() > 0 {
        let t = s.drop_last();
        lemma_plain_exprs(t);
        if plain_exprs(s) {
            assert forall|i: int| 0 <= i < s.len() implies plain_expr(#[trigger] s[i]) by {
                if i < t.len() {
                    assert(s[i] == t[i]);
                }
            }
        }
        if forall|i: int| 0 <= i < s.len() ==> plain_expr(#[trigger] s[i]) {
            assert forall|i: int| 0 <= i < t.len() implies plain_expr(#[trigger] t[i]) by {
                assert(s[i] == t[i]);
            }
            assert(plain_expr(s[s.len() - 1]));
        }
    }
}

proof fn lemma_depths(s: Seq<SpecEffectExpr>, k: nat)
    ensures
        forall|i: int| 0 <= i < s.len() ==> depth(#[trigger] s[i]) <= depths(s),
        (forall|i: int| 0 <= i < s.len() ==> depth(#[trigger] s[i]) <= k) ==> depths(s) <= k,
    decreases s.len(),
{
    if s.len() > 0 {
        let t = s.drop_last();
        lemma_depths(t, k);
        assert forall|i: int| 0 <= i < s.len() implies depth(#[trigger] s[i]) <= depths(s) by {
            if i < t.len() {
                assert(s[i] == t[i]);
            }
        }
        if forall|i: int| 0 <= i < s.len() ==> depth(#[trigger] s[i]) <= k {
            assert forall|i: int| 0 <= i < t.len() implies depth(#[trigger] t[i]) <= k by {
                assert(s[i] == t[i]);
            }
            assert(depth(s[s.len() - 1]) <= k);
        }
    }
}

proof fn lemma_simp_exprs(s: Seq<SpecEffectExpr>, f: nat)
    ensures
        simp_exprs(s, f).len() == s.len(),
        forall|i: int| 0 <= i < s.len() ==> #[trigger] simp_exprs(s, f)[i] == simp_expr(s[i], f),
    decreases s.len(),
{
    if s.len() > 0 {
        let t = s.drop_last();
        lemma_simp_exprs(t, f);
        assert forall|i: int| 0 <= i < s.len() implies #[trigger] simp_exprs(s, f)[i] == simp_expr(s[i], f) by {
            if i < t.len() {
                assert(s[i] == t[i]);
            }
        }
    }
}

proof fn lemma_non_lists(s: Seq<SpecEffectExpr>)
    ensures
        forall|x: SpecEffectExpr| #[trigger] non_lists(s).contains(x) <==> (s.contains(x) && !(x is Effects)),
    decreases s.len(),
{
    if s.len() > 0 {
        let t = s.drop_last();
        lemma_non_lists(t);
        assert forall|x: SpecEffectExpr| #[trigger] non_lists(s).contains(x) <==> (s.contains(x) && !(x is Effects)) by {
            if s.contains(x) {
                let k = choose|k: int| 0 <= k < s.len() && s[k] == x;
                if k < t.len() {
                    assert(t[k] == x);
                }
            }
            if t.contains(x) {
                let k = choose|k: int| 0 <= k < t.len() && t[k] == x;
                assert(s[k] == x);
            }
            if !(s.last() is Effects) {
                assert(non_lists(s) == non_lists(t).push(s.last()));
                if non_lists(s).contains(x) && x == s.last() {
                    assert(s[s.len() - 1] == x);
                }
                if non_lists(s).contains(x) && x != s.last() {
                    let k = choose|k: int| 0 <= k < non_lists(s).len() && non_lists(s)[k] == x;
                    assert(non_lists(t)[k] == x);
                }
                if x == s.last() {
                    assert(non_lists(s)[non_lists(s).len() - 1] == x);
                }
                if non_lists(t).contains(x) {
                    let k = choose|k: int| 0 <= k < non_lists(t).len() && non_lists(t)[k] == x;
                    assert(non_lists(s)[k] == x);
                }
            } else {
                assert(non_lists(s) == non_lists(t));
            }
            if x == s.last() {
                assert(s[s.len() - 1] == x);
            }
        }
    }
}

proof fn lemma_non_empty(s: Seq<SpecEffectExpr>)
    ensures
        forall|x: SpecEffectExpr| #[trigger] non_empty(s).contains(x) <==> (s.contains(x) && !expr_is_empty(x)),
    decreases s.len(),
{
    if s.len() > 0 {
        let t = s.drop_last();
        lemma_non_empty(t);
        assert forall|x: SpecEffectExpr| #[trigger] non_empty(s).contains(x) <==> (s.contains(x) && !expr_is_empty(x)) by {
            if s.contains(x) {
                let k = choose|k: int| 0 <= k < s.len() && s[k] == x;
                if k < t.len() {
                    assert(t[k] == x);
                }
            }
            if t.contains(x) {
                let k = choose|k: int| 0 <= k < t.len() && t[k] == x;
                assert(s[k] == x);
            }
            if !expr_is_empty(s.last()) {
                if non_empty(s).contains(x) && x != s.last() {
                    let k = choose|k: int| 0 <= k < non_empty(s).len() && non_empty(s)[k] == x;
                    assert(non_empty(t)[k] == x);
                }
                if x == s.last() {
                    assert(non_empty(s)[non_empty(s).len() - 1] == x);
                }
                if non_empty(t).contains(x) {
                    let k = choose|k: int| 0 <= k < non_empty(t).len() && non_empty(t)[k] == x;
                    assert(non_empty(s)[k] == x);
                }
            } else {
                assert(non_empty(s) == non_empty(t));
            }
            if x == s.last() {
                assert(s[s.len() - 1] == x);
            }
        }
    }
}

/// The effects listed in the lists of `s` have pure types where every
/// expression of `s` is plain.
proof fn lemma_listed_pure(s: Seq<SpecEffectExpr>)
    requires
        forall|i: int| 0 <= i < s.len() ==> plain_expr(#[trigger] s[i]),
    ensures
        pure_effects(listed_effects(s)),
    decreases s.len(),
{
    if s.len() > 0 {
        let t = s.drop_last();
        assert forall|i: int| 0 <= i < t.len() implies plain_expr(#[trigger] t[i]) by {
            assert(s[i] == t[i]);
        }
        lemma_listed_pure(t);
        assert(plain_expr(s[s.len() - 1]));
        if s.last() is Effects {
            let a = listed_effects(t);
            let b = s.last()->Effects_0;
            let c = a + b;
            assert forall|i: int| 0 <= i < c.len() implies pure_type(#[trigger] c[i].input) && pure_type(c[i].output) by {
                if i < a.len() {
                    assert(c[i] == a[i]);
                } else {
                    assert(c[i] == b[i - a.len()]);
                }
            }
        }
    }
}

/// Where every list of `s` is the list `c`, the listed effects are among
/// those of `c`, and are all of them where `c` is in `s`.
proof fn lemma_listed_single(s: Seq<SpecEffectExpr>, c: Seq<SpecEffect>)
    requires
        forall|k: int| 0 <= k < s.len() && (#[trigger] s[k]) is Effects ==> s[k] == SpecEffectExpr::Effects(c),
    ensures
        forall|y: SpecEffect| #[trigger] listed_effects(s).contains(y) ==> c.contains(y),
        s.contains(SpecEffectExpr::Effects(c)) ==> forall|y: SpecEffect| #[trigger] c.contains(y) ==> listed_effects(s).contains(y),
    decreases s.len(),
{
    if s.len() > 0 {
        let t = s.drop_last();
        assert forall|k: int| 0 <= k < t.len() && (#[trigger] t[k]) is Effects implies t[k] == SpecEffectExpr::Effects(c) by {
            assert(s[k] == t[k]);
        }
        lemma_listed_single(t, c);
        let l = listed_effects(s);
        if s.last() is Effects {
            assert(s[s.len() - 1] is Effects);
            assert(s.last() == SpecEffectExpr::Effects(c));
            assert(l == listed_effects(t) + c);
            assert forall|y: SpecEffect| #[trigger] l.contains(y) implies c.contains(y) by {
                let k = choose|k: int| 0 <= k < l.len() && l[k] == y;
                if k < listed_effects(t).len() {
                    assert(listed_effects(t)[k] == y);
                    assert(listed_effects(t).contains(y));
                } else {
                    assert(c[k - listed_effects(t).len()] == y);
                }
            }
            assert forall|y: SpecEffect| #[trigger] c.contains(y) implies l.contains(y) by {
                let k = choose|k: int| 0 <= k < c.len() && c[k] == y;
                assert(l[listed_effects(t).len() + k] == y);
            }
        } else {
            assert(l == listed_effects(t));
            if s.contains(SpecEffectExpr::Effects(c)) {
                let k = choose|k: int| 0 <= k < s.len() && s[k] == SpecEffectExpr::Effects(c);
                assert(k < t.len());
                assert(t[k] == SpecEffectExpr::Effects(c));
            }
        }
    }
}

proof fn lemma_minus(m: Seq<SpecEffect>, s: Seq<SpecEffect>)
    ensures
        forall|x: SpecEffect| #[trigger] effects_minus(m, s).contains(x) ==> m.contains(x),
        strictly_sorted::<Effect>(m) ==> strictly_sorted::<Effect>(effects_minus(m, s)),
    decreases m.len(),
{
    if m.len() > 0 {
        let t = m.drop_last();
        lemma_minus(t, s);
        let r = effects_minus(m, s);
        let rt = effects_minus(t, s);
        assert forall|x: SpecEffect| #[trigger] r.contains(x) implies m.contains(x) by {
            let k = choose|k: int| 0 <= k < r.len() && r[k] == x;
            if k < rt.len() {
                assert(rt[k] == x);
                assert(rt.contains(x));
                let j = choose|j: int| 0 <= j < t.len() && t[j] == x;
                assert(m[j] == x);
            } else {
                assert(m[m.len() - 1] == x);
            }
        }
        if strictly_sorted::<Effect>(m) {
            assert(strictly_sorted::<Effect>(t)) by {
                assert forall|i: int, j: int| 0 <= i < j < t.len() implies Effect::order(t[i], t[j]) < 0 by {
                    assert(t[i] == m[i] && t[j] == m[j]);
                }
            }
            if !s.contains(m.last()) {
                assert(r == rt.push(m.last()));
                assert forall|i: int, j: int| 0 <= i < j < r.len() implies Effect::order(r[i], r[j]) < 0 by {
                    if j < rt.len() {
                        assert(r[i] == rt[i] && r[j] == rt[j]);
                    } else {
                        assert(r[i] == rt[i]);
                        assert(rt.contains(rt[i]));
                        let k = choose|k: int| 0 <= k < t.len() && t[k] == rt[i];
                        assert(m[k] == rt[i]);
                        assert(Effect::order(m[k], m[m.len() - 1]) < 0);
                    }
                }
            }
        }
    }
}

/// A list of effects with pure types simplifies to its canonical form.
proof fn lemma_effects_case(l: Seq<SpecEffect>, f: nat)
    requires
        pure_effects(l),
        f >= 1,
    ensures
        simp_expr(SpecEffectExpr::Effects(l), f) == SpecEffectExpr::Effects(canonical::<Effect>(l)),
        pure_effects(canonical::<Effect>(l)),
        strictly_sorted::<Effect>(canonical::<Effect>(l)),
        same_elements(canonical::<Effect>(l), l),
{
    lemma_simp_effects_pure(l, (f - 1) as nat);
    lemma_canonical::<Effect>(l);
    let c = canonical::<Effect>(l);
    assert forall|i: int| 0 <= i < c.len() implies pure_type(#[trigger] c[i].input) && pure_type(c[i].output) by {
        assert(c.contains(c[i]));
        assert(l.contains(c[i]));
        let j = choose|j: int| 0 <= j < l.len() && l[j] == c[i];
        assert(pure_type(l[j].input));
    }
}

/// A strictly sorted list of effects with pure types is left as it is.
proof fn lemma_sorted_list_kept(c: Seq<SpecEffect>, f: nat)
    requires
        pure_effects(c),
        strictly_sorted::<Effect>(c),
        f >= 1,
    ensures
        simp_expr(SpecEffectExpr::Effects(c), f) == SpecEffectExpr::Effects(c),
{
    lemma_effects_case(c, f);
    lemma_canonical_of_same_elements::<Effect>(c, c);
}

/// Simplification of a plain expression, with a depth bound beyond its
/// depth: the result is plain and no deeper, a list in it is strictly
/// sorted, a larger bound gives the same result, and simplifying the result
/// again changes nothing.
proof fn lemma_plain_simp(e: SpecEffectExpr, n: nat, m: nat)
    requires
        plain_expr(e),
        depth(e) < n <= m,
    ensures
        plain_expr(simp_expr(e, n)),
        depth(simp_expr(e, n)) <= depth(e),
        simp_expr(e, n) is Effects ==> strictly_sorted::<Effect>(simp_expr(e, n)->Effects_0),
        simp_expr(e, m) == simp_expr(e, n),
        simp_expr(simp_expr(e, n), n) == simp_expr(e, n),
    decreases n,
{
    let f = (n - 1) as nat;
    let g = (m - 1) as nat;
    match e {
        SpecEffectExpr::Effects(l) => {
            lemma_effects_case(l, n);
            lemma_effects_case(l, m);
            lemma_sorted_list_kept(canonical::<Effect>(l), n);
        },
        SpecEffectExpr::Add(s) => lemma_plain_simp_add(s, n, m),
        SpecEffectExpr::Sub { minuend, subtrahend } => {
            lemma_plain_simp(*minuend, f, g);
            lemma_plain_simp(*subtrahend, f, g);
            let a = simp_expr(*minuend, f);
            let b = simp_expr(*subtrahend, f);
            if a is Effects && b is Effects {
                let r = effects_minus(a->Effects_0, b->Effects_0);
                lemma_minus(a->Effects_0, b->Effects_0);
                assert forall|i: int| 0 <= i < r.len() implies pure_type(#[trigger] r[i].input) && pure_type(r[i].output) by {
                    assert(r.contains(r[i]));
                    let j = choose|j: int| 0 <= j < a->Effects_0.len() && a->Effects_0[j] == r[i];
                    assert(pure_type(a->Effects_0[j].input));
                }
                lemma_sorted_list_kept(r, n);
            } else if expr_is_empty(a) || expr_is_empty(b) {
                lemma_plain_simp(a, f, n);
            } else {
                lemma_plain_simp(a, f, f);
                lemma_plain_simp(b, f, f);
            }
        },
        SpecEffectExpr::Apply { .. } => {},
    }
}

proof fn lemma_plain_simp_add(s: Seq<SpecEffectExpr>, n: nat, m: nat)
    requires
        plain_exprs(s),
        1 + depths(s) < n <= m,
    ensures
        plain_expr(simp_expr(SpecEffectExpr::Add(s), n)),
        depth(simp_expr(SpecEffectExpr::Add(s), n)) <= 1 + depths(s),
        simp_expr(SpecEffectExpr::Add(s), n) is Effects ==> strictly_sorted::<Effect>(
            simp_expr(SpecEffectExpr::Add(s), n)->Effects_0,
        ),
        simp_expr(SpecEffectExpr::Add(s), m) == simp_expr(SpecEffectExpr::Add(s), n),
        simp_expr(simp_expr(SpecEffectExpr::Add(s), n), n) == simp_expr(SpecEffectExpr::Add(s), n),
    decreases n, 0nat,
{
    let e = SpecEffectExpr::Add(s);
    let f = (n - 1) as nat;
    let g = (m - 1) as nat;
    lemma_plain_exprs(s);
    lemma_depths(s, 0);
    lemma_simp_exprs(s, f);
    lemma_simp_exprs(s, g);
    let xs = simp_exprs(s, f);
    assert forall|i: int| 0 <= i < s.len() implies simp_expr(s[i], g) == #[trigger] xs[i] && plain_expr(xs[i]) && depth(
        xs[i],
    ) <= depth(s[i]) && simp_expr(xs[i], f) == xs[i] && simp_expr(xs[i], n) == xs[i] && (xs[i] is Effects
        ==> strictly_sorted::<Effect>(xs[i]->Effects_0)) by {
        lemma_plain_simp(s[i], f, g);
        lemma_plain_simp(xs[i], f, n);
    }
    assert(simp_exprs(s, g) =~= xs);
    lemma_listed_pure(xs);
    let le = listed_effects(xs);
    lemma_effects_case(le, f);
    lemma_effects_case(le, g);
    let c = canonical::<Effect>(le);
    let collected = SpecEffectExpr::Effects(c);
    if s.len() == 0 {
        assert(xs =~= seq![]);
        assert(le =~= seq![]);
        assert(c =~= seq![]);
    }
    let u0 = non_lists(xs).push(collected);
    let u = non_empty(u0);
    let ws = canonical::<EffectExpr>(u);
    lemma_canonical::<EffectExpr>(u);
    lemma_non_lists(xs);
    lemma_non_empty(u0);
    assert forall|x: SpecEffectExpr| #[trigger] u0.contains(x) <==> (non_lists(xs).contains(x) || x == collected) by {
        if u0.contains(x) && x != collected {
            let k = choose|k: int| 0 <= k < u0.len() && u0[k] == x;
            assert(non_lists(xs)[k] == x);
        }
        if non_lists(xs).contains(x) {
            let k = choose|k: int| 0 <= k < non_lists(xs).len() && non_lists(xs)[k] == x;
            assert(u0[k] == x);
        }
        if x == collected {
            assert(u0[u0.len() - 1] == x);
        }
    }
    // What every element of the sorted sum is.
    assert forall|k: int| 0 <= k < ws.len() implies !expr_is_empty(#[trigger] ws[k]) && plain_expr(ws[k]) && depth(ws[k])
        <= depths(s) && simp_expr(ws[k], f) == ws[k] && simp_expr(ws[k], n) == ws[k] && (ws[k] is Effects ==> ws[k]
        == collected) by {
        let x = ws[k];
        assert(ws.contains(x));
        assert(u.contains(x));
        if x == collected {
            lemma_sorted_list_kept(c, f);
            lemma_sorted_list_kept(c, n);
            if s.len() == 0 {
                assert(expr_is_empty(collected));
            }
        } else {
            assert(non_lists(xs).contains(x));
            assert(xs.contains(x));
            let i = choose|i: int| 0 <= i < xs.len() && xs[i] == x;
            assert(depth(s[i]) <= depths(s));
        }
    }
    lemma_plain_exprs(ws);
    lemma_depths(ws, depths(s));
    if ws.len() == 1 {
        assert(ws[0] == ws[0]);
    } else {
        // Simplifying the sum again.
        lemma_simp_exprs(ws, f);
        assert(simp_exprs(ws, f) =~= ws);
        assert forall|k: int| 0 <= k < ws.len() && (#[trigger] ws[k]) is Effects implies ws[k] == SpecEffectExpr::Effects(
            c,
        ) by {}
        lemma_listed_single(ws, c);
        let lw = listed_effects(ws);
        assert forall|i: int| 0 <= i < ws.len() implies plain_expr(#[trigger] ws[i]) by {}
        lemma_listed_pure(ws);
        lemma_effects_case(lw, f);
        if c.len() > 0 {
            assert(u0.contains(collected));
            assert(u.contains(collected));
            assert(ws.contains(collected));
        }
        assert(same_elements(c, lw)) by {
            assert forall|y: SpecEffect| c.contains(y) <==> lw.contains(y) by {
                if c.contains(y) {
                    assert(c.len() > 0);
                }
            }
        }
        lemma_canonical_of_same_elements::<Effect>(c, lw);
        let v0 = non_lists(ws).push(collected);
        let v = non_empty(v0);
        lemma_non_lists(ws);
        lemma_non_empty(v0);
        assert forall|x: SpecEffectExpr| #[trigger] v0.contains(x) <==> (non_lists(ws).contains(x) || x == collected) by {
            if v0.contains(x) && x != collected {
                let k = choose|k: int| 0 <= k < v0.len() && v0[k] == x;
                assert(non_lists(ws)[k] == x);
            }
            if non_lists(ws).contains(x) {
                let k = choose|k: int| 0 <= k < non_lists(ws).len() && non_lists(ws)[k] == x;
                assert(v0[k] == x);
            }
            if x == collected {
                assert(v0[v0.len() - 1] == x);
            }
        }
        assert(same_elements(ws, v)) by {
            assert forall|x: SpecEffectExpr| ws.contains(x) <==> v.contains(x) by {
                if ws.contains(x) {
                    let k = choose|k: int| 0 <= k < ws.len() && ws[k] == x;
                    assert(!expr_is_empty(ws[k]));
                }
            }
        }
        lemma_canonical_of_same_elements::<EffectExpr>(ws, v);
    }
}

/// Simplifying an effect expression made of lists of effects with pure
/// types, sums and differences a second time changes nothing.
pub proof fn law_simplify_effect_expr_twice(e: SpecEffectExpr)
    requires
        plain_expr(e),
        depth(e) < SIMPLIFY_DEPTH,
    ensures
        simp_expr(simp_expr(e, SIMPLIFY_DEPTH as nat), SIMPLIFY_DEPTH as nat) == simp_expr(e, SIMPLIFY_DEPTH as nat),
{
    lemma_plain_simp(e, SIMPLIFY_DEPTH as nat, SIMPLIFY_DEPTH as nat);
}

/// The effects of `m` that do not occur in `s` are exactly those left by
/// the difference.
proof fn lemma_minus_exact(m: Seq<SpecEffect>, s: Seq<SpecEffect>)
    ensures
        forall|x: SpecEffect| #[trigger] effects_minus(m, s).contains(x) <==> (m.contains(x) && !s.contains(x)),
    decreases m.len(),
{
    if m.len() > 0 {
        let t = m.drop_last();
        lemma_minus_exact(t, s);
        let r = effects_minus(m, s);
        let rt = effects_minus(t, s);
        assert forall|x: SpecEffect| #[trigger] r.contains(x) <==> (m.contains(x) && !s.contains(x)) by {
            if m.contains(x) {
                let k = choose|k: int| 0 <= k < m.len() && m[k] == x;
                if k < t.len() {
                    assert(t[k] == x);
                }
            }
            if t.contains(x) {
                let k = choose|k: int| 0 <= k < t.len() && t[k] == x;
                assert(m[k] == x);
            }
            if s.contains(m.last()) {
                assert(r == rt);
            } else {
                assert(r == rt.push(m.last()));
                if r.contains(x) && x != m.last() {
                    let k = choose|k: int| 0 <= k < r.len() && r[k] == x;
                    assert(rt[k] == x);
                }
                if rt.contains(x) {
                    let k = choose|k: int| 0 <= k < rt.len() && rt[k] == x;
                    assert(r[k] == x);
                }
                if x == m.last() {
                    assert(r[r.len() - 1] == x);
                }
            }
            if x == m.last() {
                assert(m[m.len() - 1] == x);
            }
        }
    }
}

/// The difference of two lists of effects simplifies to the list, strictly
/// sorted, of exactly the effects of the first that do not occur in the
/// second: no effect of the first outside the second is lost.
pub proof fn law_simplify_sub_of_lists(m: Seq<SpecEffect>, s: Seq<SpecEffect>, fuel: nat)
    requires
        pure_effects(m),
        pure_effects(s),
        fuel >= 2,
    ensures
        simp_expr(SpecEffectExpr::Sub { minuend: Box::new(SpecEffectExpr::Effects(m)), subtrahend: Box::new(SpecEffectExpr::Effects(s)) }, fuel) is Effects,
        strictly_sorted::<Effect>(
            simp_expr(SpecEffectExpr::Sub { minuend: Box::new(SpecEffectExpr::Effects(m)), subtrahend: Box::new(SpecEffectExpr::Effects(s)) }, fuel)->Effects_0,
        ),
        forall|x: SpecEffect| #[trigger] simp_expr(
            SpecEffectExpr::Sub { minuend: Box::new(SpecEffectExpr::Effects(m)), subtrahend: Box::new(SpecEffectExpr::Effects(s)) },
            fuel,
        )->Effects_0.contains(x) <==> (m.contains(x) && !s.contains(x)),
{
    let f = (fuel - 1) as nat;
    lemma_effects_case(m, f);
    lemma_effects_case(s, f);
    let cm = canonical::<Effect>(m);
    let cs = canonical::<Effect>(s);
    lemma_minus(cm, cs);
    lemma_minus_exact(cm, cs);
}

/// The sum of two lists of effects simplifies to the list, strictly sorted,
/// of exactly the effects of either; where both are empty, to the empty sum.
pub proof fn law_simplify_add_of_lists(a: Seq<SpecEffect>, b: Seq<SpecEffect>, fuel: nat)
    requires
        pure_effects(a),
        pure_effects(b),
        fuel >= 2,
    ensures
        ({
            let r = simp_expr(SpecEffectExpr::Add(seq![SpecEffectExpr::Effects(a), SpecEffectExpr::Effects(b)]), fuel);
            &&& a.len() + b.len() == 0 ==> r == SpecEffectExpr::Add(seq![])
            &&& a.len() + b.len() > 0 ==> r is Effects && strictly_sorted::<Effect>(r->Effects_0)
                && forall|x: SpecEffect| #[trigger] r->Effects_0.contains(x) <==> (a.contains(x) || b.contains(x))
        }),
{
    let f = (fuel - 1) as nat;
    let s = seq![SpecEffectExpr::Effects(a), SpecEffectExpr::Effects(b)];
    lemma_simp_exprs(s, f);
    lemma_effects_case(a, f);
    lemma_effects_case(b, f);
    let ca = canonical::<Effect>(a);
    let cb = canonical::<Effect>(b);
    let xs = simp_exprs(s, f);
    assert(xs =~= seq![SpecEffectExpr::Effects(ca), SpecEffectExpr::Effects(cb)]);
    assert(xs.drop_last() =~= seq![SpecEffectExpr::Effects(ca)]);
    let x1 = xs.drop_last();
    let x0 = x1.drop_last();
    assert(x0 =~= Seq::<SpecEffectExpr>::empty());
    assert(listed_effects(x0) == Seq::<SpecEffect>::empty());
    assert(non_lists(x0) == Seq::<SpecEffectExpr>::empty());
    assert(x1.last() == SpecEffectExpr::Effects(ca));
    assert(listed_effects(x1) == listed_effects(x0) + ca);
    assert(listed_effects(x1) =~= ca);
    assert(non_lists(x1) == non_lists(x0));
    assert(xs.last() == SpecEffectExpr::Effects(cb));
    let le = listed_effects(xs);
    assert(le == listed_effects(x1) + cb);
    assert(le =~= ca + cb);
    assert(non_lists(xs) == non_lists(x1));
    assert(non_lists(xs) =~= Seq::<SpecEffectExpr>::empty());
    assert(pure_effects(le)) by {
        assert forall|i: int| 0 <= i < le.len() implies pure_type(#[trigger] le[i].input) && pure_type(le[i].output) by {
            if i < ca.len() {
                assert(le[i] == ca[i]);
            } else {
                assert(le[i] == cb[i - ca.len()]);
            }
        }
    }
    lemma_effects_case(le, f);
    let c = canonical::<Effect>(le);
    let collected = SpecEffectExpr::Effects(c);
    let u0 = Seq::<SpecEffectExpr>::empty().push(collected);
    assert(non_lists(xs).push(collected) =~= u0);
    assert(u0.drop_last() =~= Seq::<SpecEffectExpr>::empty());
    assert forall|x: SpecEffect| le.contains(x) <==> (a.contains(x) || b.contains(x)) by {
        if le.contains(x) {
            let k = choose|k: int| 0 <= k < le.len() && le[k] == x;
            if k < ca.len() {
                assert(ca[k] == x);
                assert(ca.contains(x));
            } else {
                assert(cb[k - ca.len()] == x);
                assert(cb.contains(x));
            }
        }
        if a.contains(x) {
            assert(ca.contains(x));
            let k = choose|k: int| 0 <= k < ca.len() && ca[k] == x;
            assert(le[k] == x);
        }
        if b.contains(x) {
            assert(cb.contains(x));
            let k = choose|k: int| 0 <= k < cb.len() && cb[k] == x;
            assert(le[ca.len() + k] == x);
        }
    }
    let e0 = u0.drop_last();
    assert(e0 =~= Seq::<SpecEffectExpr>::empty());
    assert(non_empty(e0) == Seq::<SpecEffectExpr>::empty());
    assert(u0.last() == collected);
    if a.len() + b.len() == 0 {
        assert(a =~= Seq::<SpecEffect>::empty());
        assert(b =~= Seq::<SpecEffect>::empty());
        assert(ca =~= Seq::<SpecEffect>::empty());
        assert(cb =~= Seq::<SpecEffect>::empty());
        assert(c =~= Seq::<SpecEffect>::empty());
        assert(expr_is_empty(collected));
        assert(non_empty(u0) == non_empty(e0));
        assert(non_empty(u0) =~= Seq::<SpecEffectExpr>::empty());
        assert(canonical::<EffectExpr>(non_empty(u0)) =~= Seq::<SpecEffectExpr>::empty());
    } else {
        if a.len() > 0 {
            assert(a.contains(a[0]));
            assert(c.contains(a[0]));
        } else {
            assert(b.contains(b[0]));
            assert(c.contains(b[0]));
        }
        assert(c.len() > 0);
        assert(!expr_is_empty(collected));
        assert(non_empty(u0) == non_empty(e0).push(collected));
        assert(non_empty(u0) =~= u0);
        assert(u0.drop_last() =~= Seq::<SpecEffectExpr>::empty());
        assert(canonical::<EffectExpr>(u0.drop_last()) =~= Seq::<SpecEffectExpr>::empty());
        assert(canonical::<EffectExpr>(u0) =~= seq![collected]);
    }
}

} // verus!
