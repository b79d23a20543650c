//! Generalising the type of a function: its existentials are renamed to
//! fresh identifiers and bound by quantifiers.
use std::collections::HashMap;
use vstd::prelude::*;

use crate::ctx::{succ_id, Ctx, SpecStore, Store};
use crate::sorted::{canonical, lemma_canonical, sort_dedup, views};
use crate::substitute::{occurs, occurs_effects, occurs_expr, occurs_exprs, occurs_types};
use crate::ty::{
    effects_view, exprs_view, lemma_view_add, lemma_view_apply, lemma_view_effects, lemma_view_product,
    types_view, Effect, EffectExpr, Id, SpecEffect, SpecEffectExpr, SpecType, Type,
};

verus! {

broadcast use vstd::std_specs::hash::group_hash_axioms;

/// The renaming built so far, the next fresh identifier and the fresh
/// identifiers handed out so far, in order.
pub struct Renaming {
    pub map: Map<Id, Id>,
    pub next: Id,
    pub fresh: Seq<Id>,
}

/// The new name of the existential `id`: the one it already has, or the
/// next fresh identifier.
pub open spec fn rename(id: Id, r: Renaming) -> (Id, Renaming) {
    if r.map.contains_key(id) {
        (r.map[id], r)
    } else {
        (r.next, Renaming { map: r.map.insert(id, r.next), next: succ_id(r.next), fresh: r.fresh.push(r.next) })
    }
}

/// `t` with each existential renamed, in the order the existentials are met
/// from left to right.
pub open spec fn rename_type(t: SpecType, r: Renaming) -> (SpecType, Renaming)
    decreases t, 0nat,
{
    match t {
        SpecType::Existential(id) => {
            let (x, r1) = rename(id, r);
            (SpecType::Existential(x), r1)
        },
        SpecType::Product(s) => {
            let (s1, r1) = rename_types(s, r);
            (SpecType::Product(s1), r1)
        },
        SpecType::Sum(s) => {
            let (s1, r1) = rename_types(s, r);
            (SpecType::Sum(s1), r1)
        },
        SpecType::Function { parameter, body } => {
            let (p, r1) = rename_type(*parameter, r);
            let (b, r2) = rename_type(*body, r1);
            (SpecType::Function { parameter: Box::new(p), body: Box::new(b) }, r2)
        },
        SpecType::Array(x) => {
            let (y, r1) = rename_type(*x, r);
            (SpecType::Array(Box::new(y)), r1)
        },
        SpecType::SetOf(x) => {
            let (y, r1) = rename_type(*x, r);
            (SpecType::SetOf(Box::new(y)), r1)
        },
        SpecType::ForAll { variable, body } => {
            let (b, r1) = rename_type(*body, r);
            (SpecType::ForAll { variable, body: Box::new(b) }, r1)
        },
        SpecType::Effectful { ty, effects } => {
            let (x, r1) = rename_type(*ty, r);
            let (e, r2) = rename_expr(effects, r1);
            (SpecType::Effectful { ty: Box::new(x), effects: e }, r2)
        },
        SpecType::Brand { brand, item } => {
            let (x, r1) = rename_type(*item, r);
            (SpecType::Brand { brand, item: Box::new(x) }, r1)
        },
        SpecType::Label { label, item } => {
            let (x, r1) = rename_type(*item, r);
            (SpecType::Label { label, item: Box::new(x) }, r1)
        },
        _ => (t, r),
    }
}

pub open spec fn rename_types(s: Seq<SpecType>, r: Renaming) -> (Seq<SpecType>, Renaming)
    decreases s, s.len(),
{
    if s.len() == 0 {
        (seq![], r)
    } else {
        let (a, r1) = rename_types(s.drop_last(), r);
        let (b, r2) = rename_type(s.last(), r1);
        (a.push(b), r2)
    }
}

pub open spec fn rename_effects(s: Seq<SpecEffect>, r: Renaming) -> (Seq<SpecEffect>, Renaming)
    decreases s, s.len(),
{
    if s.len() == 0 {
        (seq![], r)
    } else {
        let (a, r1) = rename_effects(s.drop_last(), r);
        let (i, r2) = rename_type(s.last().input, r1);
        let (o, r3) = rename_type(s.last().output, r2);
        (a.push(SpecEffect { input: i, output: o }), r3)
    }
}

pub open spec fn rename_exprs(s: Seq<SpecEffectExpr>, r: Renaming) -> (Seq<SpecEffectExpr>, Renaming)
    decreases s, s.len(),
{
    if s.len() == 0 {
        (seq![], r)
    } else {
        let (a, r1) = rename_exprs(s.drop_last(), r);
        let (b, r2) = rename_expr(s.last(), r1);
        (a.push(b), r2)
    }
}

/// [`rename_type`] on the types of an effect expression.
pub open spec fn rename_expr(e: SpecEffectExpr, r: Renaming) -> (SpecEffectExpr, Renaming)
    decreases e, 0nat,
{
    match e {
        SpecEffectExpr::Effects(s) => {
            let (s1, r1) = rename_effects(s, r);
            (SpecEffectExpr::Effects(s1), r1)
        },
        SpecEffectExpr::Add(s) => {
            let (s1, r1) = rename_exprs(s, r);
            (SpecEffectExpr::Add(s1), r1)
        },
        SpecEffectExpr::Sub { minuend, subtrahend } => {
            let (m, r1) = rename_expr(*minuend, r);
            let (x, r2) = rename_expr(*subtrahend, r1);
            (SpecEffectExpr::Sub { minuend: Box::new(m), subtrahend: Box::new(x) }, r2)
        },
        SpecEffectExpr::Apply { function, arguments } => {
            let (f, r1) = rename_type(*function, r);
            let (a, r2) = rename_types(arguments, r1);
            (SpecEffectExpr::Apply { function: Box::new(f), arguments: a }, r2)
        },
    }
}

/// `t` under a quantifier for each of `ids`, the first outermost.
pub open spec fn wrap_foralls(ids: Seq<Id>, t: SpecType) -> SpecType
    decreases ids.len(),
{
    if ids.len() == 0 {
        t
    } else {
        SpecType::ForAll { variable: ids[0], body: Box::new(wrap_foralls(ids.drop_first(), t)) }
    }
}

/// The generalisation of `t` with fresh identifiers from `start` on, and the
/// next identifier afterwards: a function type has its existentials renamed
/// to fresh identifiers and bound by quantifiers, smallest outermost; any
/// other type stays as it is.
pub open spec fn make_polymorphic_spec(t: SpecType, start: Id) -> (SpecType, Id) {
    if t is Function {
        let (renamed, r) = rename_type(t, Renaming { map: Map::empty(), next: start, fresh: seq![] });
        (wrap_foralls(canonical::<usize>(r.fresh), renamed), r.next)
    } else {
        (t, start)
    }
}

/// The executable state of the renaming.
struct Renamer {
    map: HashMap<Id, Id>,
    fresh: Vec<Id>,
}

impl Renamer {
    spec fn at(&self, store: &Store) -> Renaming {
        Renaming { map: self.map@, next: store.id_gen.next_id, fresh: self.fresh@ }
    }

    fn rename_existential(&mut self, store: &mut Store, id: Id) -> (x: Id)
        ensures
            (x, final(self).at(final(store))) == rename(id, old(self).at(old(store))),
            final(store).types == old(store).types,
    {
        match self.map.get(&id) {
            Some(x) => *x,
            None => {
                let x = store.id_gen.next_id();
                self.map.insert(id, x);
                self.fresh.push(x);
                x
            },
        }
    }

    fn rename_types_exec(&mut self, store: &mut Store, v: &Vec<Type>) -> (r: Vec<Type>)
        ensures
            (types_view(r@), final(self).at(final(store))) == rename_types(types_view(v@), old(self).at(old(store))),
            final(store).types == old(store).types,
        decreases v, 0nat,
    {
        let ghost s = types_view(v@);
        let ghost r0 = self.at(store);
        let mut r: Vec<Type> = Vec::new();
        let mut i: usize = 0;
        proof { assert(s.subrange(0, 0) =~= Seq::<SpecType>::empty()); assert(types_view(r@) =~= Seq::<SpecType>::empty()); }
        while i < v.len()
            invariant
                i <= v@.len(),
                s == types_view(v@),
                r@.len() == i,
                store.types == old(store).types,
                (types_view(r@), self.at(store)) == rename_types(s.subrange(0, i as int), r0),
            decreases v@.len() - i,
        {
            proof {
                vstd::std_specs::vec::axiom_vec_index_decreases(*v, i as int);
                assert(s.subrange(0, i + 1).drop_last() =~= s.subrange(0, i as int));
                assert(s.subrange(0, i + 1).last() == s[i as int]);
            }
            let ghost before = types_view(r@);
            let t = self.rename_type_exec(store, &v[i]);
            r.push(t);
            proof { assert(types_view(r@) =~= before.push(r@[i as int]@)); }
            i += 1;
        }
        proof { assert(s.subrange(0, s.len() as int) =~= s); }
        r
    }

    fn rename_type_exec(&mut self, store: &mut Store, t: &Type) -> (r: Type)
        ensures
            (r@, final(self).at(final(store))) == rename_type(t@, old(self).at(old(store))),
            final(store).types == old(store).types,
        decreases t, 1nat,
    {
        match t {
            Type::Existential(id) => Type::Existential(self.rename_existential(store, *id)),
            Type::Product(v) => {
                proof {
                    assert(decreases_to!(*t => t->Product_0));
                    lemma_view_product(*v);
                }
                let s = self.rename_types_exec(store, v);
                proof { lemma_view_product(s); }
                Type::Product(s)
            },
            Type::Sum(v) => {
                proof {
                    assert(decreases_to!(*t => t->Sum_0));
                    lemma_view_product(*v);
                }
                let s = self.rename_types_exec(store, v);
                proof { lemma_view_product(s); }
                Type::Sum(s)
            },
            Type::Function { parameter, body } => {
                let p = self.rename_type_exec(store, parameter);
                let b = self.rename_type_exec(store, body);
                Type::Function { parameter: Box::new(p), body: Box::new(b) }
            },
            Type::Array(x) => Type::Array(Box::new(self.rename_type_exec(store, x))),
            Type::SetOf(x) => Type::SetOf(Box::new(self.rename_type_exec(store, x))),
            Type::ForAll { variable, body } => Type::ForAll {
                variable: *variable,
                body: Box::new(self.rename_type_exec(store, body)),
            },
            Type::Effectful { ty, effects } => {
                let x = self.rename_type_exec(store, ty);
                let e = self.rename_expr_exec(store, effects);
                Type::Effectful { ty: Box::new(x), effects: e }
            },
            Type::Brand { brand, item } => Type::Brand {
                brand: brand.clone(),
                item: Box::new(self.rename_type_exec(store, item)),
            },
            Type::Label { label, item } => Type::Label {
                label: label.clone(),
                item: Box::new(self.rename_type_exec(store, item)),
            },
            Type::Number => Type::Number,
            Type::String => Type::String,
            Type::Variable(id) => Type::Variable(*id),
            Type::Infer(id) => Type::Infer(*id),
        }
    }

    fn rename_expr_exec(&mut self, store: &mut Store, e: &EffectExpr) -> (r: EffectExpr)
        ensures
            (r@, final(self).at(final(store))) == rename_expr(e@, old(self).at(old(store))),
            final(store).types == old(store).types,
        decreases e, 1nat,
    {
        match e {
            EffectExpr::Effects(v) => {
                proof { lemma_view_effects(*v); }
                let ghost s = effects_view(v@);
                let ghost r0 = self.at(store);
                let mut r: Vec<Effect> = Vec::new();
                let mut i: usize = 0;
                proof { assert(s.subrange(0, 0) =~= Seq::<SpecEffect>::empty()); assert(effects_view(r@) =~= Seq::<SpecEffect>::empty()); }
                while i < v.len()
                    invariant
                        i <= v@.len(),
                        *e == EffectExpr::Effects(*v),
                        s == effects_view(v@),
                        r@.len() == i,
                        store.types == old(store).types,
                        (effects_view(r@), self.at(store)) == rename_effects(s.subrange(0, i as int), r0),
                    decreases v@.len() - i,
                {
                    proof {
                        vstd::std_specs::vec::axiom_vec_index_decreases(*v, i as int);
                        assert(decreases_to!(*e => e->Effects_0));
                        assert(s.subrange(0, i + 1).drop_last() =~= s.subrange(0, i as int));
                        assert(s.subrange(0, i + 1).last() == s[i as int]);
                    }
                    let ghost before = effects_view(r@);
                    let input = self.rename_type_exec(store, &v[i].input);
                    let output = self.rename_type_exec(store, &v[i].output);
                    r.push(Effect { input, output });
                    proof { assert(effects_view(r@) =~= before.push(r@[i as int]@)); }
                    i += 1;
                }
                proof {
                    assert(s.subrange(0, s.len() as int) =~= s);
                    lemma_view_effects(r);
                }
                EffectExpr::Effects(r)
            },
            EffectExpr::Add(v) => {
                proof { lemma_view_add(*v); }
                let ghost s = exprs_view(v@);
                let ghost r0 = self.at(store);
                let mut r: Vec<EffectExpr> = Vec::new();
                let mut i: usize = 0;
                proof { assert(s.subrange(0, 0) =~= Seq::<SpecEffectExpr>::empty()); assert(exprs_view(r@) =~= Seq::<SpecEffectExpr>::empty()); }
                while i < v.len()
                    invariant
                        i <= v@.len(),
                        *e == EffectExpr::Add(*v),
                        s == exprs_view(v@),
                        r@.len() == i,
                        store.types == old(store).types,
                        (exprs_view(r@), self.at(store)) == rename_exprs(s.subrange(0, i as int), r0),
                    decreases v@.len() - i,
                {
                    proof {
                        vstd::std_specs::vec::axiom_vec_index_decreases(*v, i as int);
                        assert(decreases_to!(*e => e->Add_0));
                        assert(s.subrange(0, i + 1).drop_last() =~= s.subrange(0, i as int));
                        assert(s.subrange(0, i + 1).last() == s[i as int]);
                    }
                    let ghost before = exprs_view(r@);
                    let x = self.rename_expr_exec(store, &v[i]);
                    r.push(x);
                    proof { assert(exprs_view(r@) =~= before.push(r@[i as int]@)); }
                    i += 1;
                }
                proof {
                    assert(s.subrange(0, s.len() as int) =~= s);
                    lemma_view_add(r);
                }
                EffectExpr::Add(r)
            },
            EffectExpr::Sub { minuend, subtrahend } => {
                let m = self.rename_expr_exec(store, minuend);
                let x = self.rename_expr_exec(store, subtrahend);
                EffectExpr::Sub { minuend: Box::new(m), subtrahend: Box::new(x) }
            },
            EffectExpr::Apply { function, arguments } => {
                proof {
                    assert(decreases_to!(*e => e->arguments));
                    lemma_view_apply(*function, *arguments);
                }
                let f = Box::new(self.rename_type_exec(store, function));
                let a = self.rename_types_exec(store, arguments);
                proof { lemma_view_apply(f, a); }
                EffectExpr::Apply { function: f, arguments: a }
            },
        }
    }
}

impl Ctx {
    /// Generalises a function type, as [`make_polymorphic_spec`] says, with
    /// fresh identifiers from the shared counter.
    pub fn make_polymorphic(&self, store: &mut Store, ty: Type) -> (r: Type)
        ensures
            (r@, final(store)@.next_id) == make_polymorphic_spec(ty@, old(store)@.next_id),
            final(store)@.types == old(store)@.types,
    {
        if let Type::Function { .. } = ty {
            let mut renamer = Renamer { map: HashMap::new(), fresh: Vec::new() };
            proof {
                assert(renamer.at(store) == (Renaming { map: Map::empty(), next: store.id_gen.next_id, fresh: seq![] }));
            }
            let mut t = renamer.rename_type_exec(store, &ty);
            let ghost fresh = renamer.fresh@;
            proof { assert(views(renamer.fresh@) =~= fresh); }
            let ids = sort_dedup(renamer.fresh);
            let ghost sorted = ids@;
            let ghost renamed = t@;
            proof { assert(views(ids@) =~= sorted); }
            let n = ids.len();
            let mut k: usize = n;
            proof { assert(sorted.subrange(n as int, n as int) =~= Seq::<Id>::empty()); }
            while k > 0
                invariant
                    k <= n,
                    n == ids@.len(),
                    sorted == ids@,
                    t@ == wrap_foralls(sorted.subrange(k as int, n as int), renamed),
                decreases k,
            {
                proof {
                    assert(sorted.subrange(k - 1, n as int).drop_first() =~= sorted.subrange(k as int, n as int));
                    assert(sorted.subrange(k - 1, n as int)[0] == ids@[k - 1]);
                }
                k -= 1;
                t = Type::ForAll { variable: ids[k], body: Box::new(t) };
            }
            proof { assert(sorted.subrange(0, n as int) =~= sorted); }
            t
        } else {
            ty
        }
    }
}

/// Every new name the renaming gives is one of its fresh identifiers.
pub open spec fn names_fresh(r: Renaming) -> bool {
    forall|k: Id| #![trigger r.map.contains_key(k)] r.map.contains_key(k) ==> r.fresh.contains(r.map[k])
}

/// The fresh identifiers of `r` are still fresh identifiers of `r2`.
pub open spec fn keeps(r: Renaming, r2: Renaming) -> bool {
    forall|x: Id| r.fresh.contains(x) ==> #[trigger] r2.fresh.contains(x)
}

proof fn lemma_occurs_types_at(id: Id, s: Seq<SpecType>)
    ensures
        occurs_types(id, s) <==> exists|i: int| 0 <= i < s.len() && occurs(id, #[trigger] s[i]),
    decreases s.len(),
{
    if s.len() > 0 {
        let rest = s.subrange(1, s.len() as int);
        lemma_occurs_types_at(id, rest);
        if occurs_types(id, rest) {
            let i = choose|i: int| 0 <= i < rest.len() && occurs(id, #[trigger] rest[i]);
            assert(s[i + 1] == rest[i]);
        }
        if exists|i: int| 0 <= i < s.len() && occurs(id, #[trigger] s[i]) {
            let i = choose|i: int| 0 <= i < s.len() && occurs(id, #[trigger] s[i]);
            if i > 0 {
                assert(rest[i - 1] == s[i]);
            }
        }
    }
}

proof fn lemma_occurs_effects_at(id: Id, s: Seq<SpecEffect>)
    ensures
        occurs_effects(id, s) <==> exists|i: int| 0 <= i < s.len() && (occurs(id, (#[trigger] s[i]).input) || occurs(id, s[i].output)),
    decreases s.len(),
{
    if s.len() > 0 {
        let rest = s.subrange(1, s.len() as int);
        lemma_occurs_effects_at(id, rest);
        if occurs_effects(id, rest) {
            let i = choose|i: int| 0 <= i < rest.len() && (occurs(id, (#[trigger] rest[i]).input) || occurs(id, rest[i].output));
            assert(s[i + 1] == rest[i]);
        }
        if exists|i: int| 0 <= i < s.len() && (occurs(id, (#[trigger] s[i]).input) || occurs(id, s[i].output)) {
            let i = choose|i: int| 0 <= i < s.len() && (occurs(id, (#[trigger] s[i]).input) || occurs(id, s[i].output));
            if i > 0 {
                assert(rest[i - 1] == s[i]);
            }
        }
    }
}

proof fn lemma_occurs_exprs_at(id: Id, s: Seq<SpecEffectExpr>)
    ensures
        occurs_exprs(id, s) <==> exists|i: int| 0 <= i < s.len() && occurs_expr(id, #[trigger] s[i]),
    decreases s.len(),
{
    if s.len() > 0 {
        let rest = s.subrange(1, s.len() as int);
        lemma_occurs_exprs_at(id, rest);
        if occurs_exprs(id, rest) {
            let i = choose|i: int| 0 <= i < rest.len() && occurs_expr(id, #[trigger] rest[i]);
            assert(s[i + 1] == rest[i]);
        }
        if exists|i: int| 0 <= i < s.len() && occurs_expr(id, #[trigger] s[i]) {
            let i = choose|i: int| 0 <= i < s.len() && occurs_expr(id, #[trigger] s[i]);
            if i > 0 {
                assert(rest[i - 1] == s[i]);
            }
        }
    }
}

proof fn lemma_rename_id(id: Id, r: Renaming)
    requires
        names_fresh(r),
    ensures
        names_fresh(rename(id, r).1),
        keeps(r, rename(id, r).1),
        rename(id, r).1.fresh.contains(rename(id, r).0),
{
    let (x, r1) = rename(id, r);
    if r.map.contains_key(id) {
        assert(r.map.contains_key(id));
    } else {
        assert(r1.fresh[r1.fresh.len() - 1] == r.next);
        assert forall|x: Id| r.fresh.contains(x) implies #[trigger] r1.fresh.contains(x) by {
            let k = choose|k: int| 0 <= k < r.fresh.len() && r.fresh[k] == x;
            assert(r1.fresh[k] == x);
        }
        assert forall|k: Id| #![trigger r1.map.contains_key(k)] r1.map.contains_key(k) implies r1.fresh.contains(r1.map[k]) by {
            if k != id {
                assert(r.map.contains_key(k));
                assert(r.fresh.contains(r.map[k]));
            }
        }
    }
}

/// Renaming a type gives one whose every existential is a fresh identifier
/// of the renaming.
proof fn lemma_rename_type_fresh(t: SpecType, r: Renaming)
    requires
        names_fresh(r),
    ensures
        names_fresh(rename_type(t, r).1),
        keeps(r, rename_type(t, r).1),
        forall|id: Id| occurs(id, rename_type(t, r).0) ==> #[trigger] rename_type(t, r).1.fresh.contains(id),
    decreases t, 0nat,
{
    match t {
        SpecType::Existential(id) => lemma_rename_id(id, r),
        SpecType::Product(s) => lemma_rename_types_fresh(s, r),
        SpecType::Sum(s) => lemma_rename_types_fresh(s, r),
        SpecType::Function { parameter, body } => {
            lemma_rename_type_fresh(*parameter, r);
            let r1 = rename_type(*parameter, r).1;
            lemma_rename_type_fresh(*body, r1);
        },
        SpecType::Array(x) => lemma_rename_type_fresh(*x, r),
        SpecType::SetOf(x) => lemma_rename_type_fresh(*x, r),
        SpecType::ForAll { variable: _, body } => lemma_rename_type_fresh(*body, r),
        SpecType::Effectful { ty, effects } => {
            lemma_rename_type_fresh(*ty, r);
            let r1 = rename_type(*ty, r).1;
            lemma_rename_expr_fresh(effects, r1);
        },
        SpecType::Brand { brand: _, item } => lemma_rename_type_fresh(*item, r),
        SpecType::Label { label: _, item } => lemma_rename_type_fresh(*item, r),
        _ => {},
    }
}

proof fn lemma_rename_types_fresh(s: Seq<SpecType>, r: Renaming)
    requires
        names_fresh(r),
    ensures
        names_fresh(rename_types(s, r).1),
        keeps(r, rename_types(s, r).1),
        forall|id: Id| occurs_types(id, rename_types(s, r).0) ==> #[trigger] rename_types(s, r).1.fresh.contains(id),
    decreases s, s.len(),
{
    if s.len() > 0 {
        lemma_rename_types_fresh(s.drop_last(), r);
        let (a, r1) = rename_types(s.drop_last(), r);
        lemma_rename_type_fresh(s.last(), r1);
        let (b, r2) = rename_type(s.last(), r1);
        let c = a.push(b);
        assert forall|id: Id| occurs_types(id, c) implies #[trigger] r2.fresh.contains(id) by {
            lemma_occurs_types_at(id, c);
            lemma_occurs_types_at(id, a);
            let i = choose|i: int| 0 <= i < c.len() && occurs(id, #[trigger] c[i]);
            if i < a.len() {
                assert(c[i] == a[i]);
                assert(r1.fresh.contains(id));
            }
        }
    } else {
        lemma_occurs_types_at(0, seq![]);
        assert forall|id: Id| occurs_types(id, rename_types(s, r).0) implies #[trigger] rename_types(s, r).1.fresh.contains(id) by {
            lemma_occurs_types_at(id, seq![]);
        }
    }
}

proof fn lemma_rename_effects_fresh(s: Seq<SpecEffect>, r: Renaming)
    requires
        names_fresh(r),
    ensures
        names_fresh(rename_effects(s, r).1),
        keeps(r, rename_effects(s, r).1),
        forall|id: Id| occurs_effects(id, rename_effects(s, r).0) ==> #[trigger] rename_effects(s, r).1.fresh.contains(id),
    decreases s, s.len(),
{
    if s.len() > 0 {
        lemma_rename_effects_fresh(s.drop_last(), r);
        let (a, r1) = rename_effects(s.drop_last(), r);
        lemma_rename_type_fresh(s.last().input, r1);
        let (i0, r2) = rename_type(s.last().input, r1);
        lemma_rename_type_fresh(s.last().output, r2);
        let (o0, r3) = rename_type(s.last().output, r2);
        let c = a.push(SpecEffect { input: i0, output: o0 });
        assert forall|id: Id| occurs_effects(id, c) implies #[trigger] r3.fresh.contains(id) by {
            lemma_occurs_effects_at(id, c);
            lemma_occurs_effects_at(id, a);
            let i = choose|i: int| 0 <= i < c.len() && (occurs(id, (#[trigger] c[i]).input) || occurs(id, c[i].output));
            if i < a.len() {
                assert(c[i] == a[i]);
                assert(r1.fresh.contains(id));
            } else if occurs(id, i0) {
                assert(r2.fresh.contains(id));
            }
        }
    } else {
        assert forall|id: Id| occurs_effects(id, rename_effects(s, r).0) implies #[trigger] rename_effects(s, r).1.fresh.contains(id) by {
            lemma_occurs_effects_at(id, seq![]);
        }
    }
}

proof fn lemma_rename_exprs_fresh(s: Seq<SpecEffectExpr>, r: Renaming)
    requires
        names_fresh(r),
    ensures
        names_fresh(rename_exprs(s, r).1),
        keeps(r, rename_exprs(s, r).1),
        forall|id: Id| occurs_exprs(id, rename_exprs(s, r).0) ==> #[trigger] rename_exprs(s, r).1.fresh.contains(id),
    decreases s, s.len(),
{
    if s.len() > 0 {
        lemma_rename_exprs_fresh(s.drop_last(), r);
        let (a, r1) = rename_exprs(s.drop_last(), r);
        lemma_rename_expr_fresh(s.last(), r1);
        let (b, r2) = rename_expr(s.last(), r1);
        let c = a.push(b);
        assert forall|id: Id| occurs_exprs(id, c) implies #[trigger] r2.fresh.contains(id) by {
            lemma_occurs_exprs_at(id, c);
            lemma_occurs_exprs_at(id, a);
            let i = choose|i: int| 0 <= i < c.len() && occurs_expr(id, #[trigger] c[i]);
            if i < a.len() {
                assert(c[i] == a[i]);
                assert(r1.fresh.contains(id));
            }
        }
    } else {
        assert forall|id: Id| occurs_exprs(id, rename_exprs(s, r).0) implies #[trigger] rename_exprs(s, r).1.fresh.contains(id) by {
            lemma_occurs_exprs_at(id, seq![]);
        }
    }
}

proof fn lemma_rename_expr_fresh(e: SpecEffectExpr, r: Renaming)
    requires
        names_fresh(r),
    ensures
        names_fresh(rename_expr(e, r).1),
        keeps(r, rename_expr(e, r).1),
        forall|id: Id| occurs_expr(id, rename_expr(e, r).0) ==> #[trigger] rename_expr(e, r).1.fresh.contains(id),
    decreases e, 0nat,
{
    match e {
        SpecEffectExpr::Effects(s) => lemma_rename_effects_fresh(s, r),
        SpecEffectExpr::Add(s) => lemma_rename_exprs_fresh(s, r),
        SpecEffectExpr::Sub { minuend, subtrahend } => {
            lemma_rename_expr_fresh(*minuend, r);
            let r1 = rename_expr(*minuend, r).1;
            lemma_rename_expr_fresh(*subtrahend, r1);
        },
        SpecEffectExpr::Apply { function, arguments } => {
            lemma_rename_type_fresh(*function, r);
            let r1 = rename_type(*function, r).1;
            lemma_rename_types_fresh(arguments, r1);
        },
    }
}

/// Generalising a function type binds every existential of the result: the
/// result is the renamed type under quantifiers, and each existential that
/// occurs in the renamed type, in its effects too, is one of the quantified
/// identifiers.
pub proof fn law_polymorphic_binds_every_existential(t: SpecType, start: Id)
    requires
        t is Function,
    ensures
        exists|q: Seq<Id>, body: SpecType|
            #![trigger wrap_foralls(q, body)]
            make_polymorphic_spec(t, start).0 == wrap_foralls(q, body) && forall|id: Id|
                occurs(id, body) ==> #[trigger] q.contains(id),
{
    let r0 = Renaming { map: Map::empty(), next: start, fresh: seq![] };
    lemma_rename_type_fresh(t, r0);
    let (renamed, r) = rename_type(t, r0);
    let q = canonical::<usize>(r.fresh);
    lemma_canonical::<usize>(r.fresh);
    assert forall|id: Id| occurs(id, renamed) implies #[trigger] q.contains(id) by {
        assert(r.fresh.contains(id));
    }
    assert(make_polymorphic_spec(t, start).0 == wrap_foralls(q, renamed));
}

} // verus!
