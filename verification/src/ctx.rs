//! Typing contexts: the ordered log of variables, existentials, solutions,
//! scope markers and effects that the inference works on, together with the
//! state that every context of one inference shares.
use std::collections::HashMap;
use vstd::prelude::*;
use vstd::std_specs::cmp::PartialEqSpecImpl;

use crate::effect_expr::{expr_is_empty, simp_expr, simp_type, simplify, simplify_effect_expr, SIMPLIFY_DEPTH};
use crate::sorted::views;
use crate::substitute_from_ctx::{ctx_subst_expr, ctx_subst_type};
use crate::ty::{EffectExpr, Id, SpecEffectExpr, SpecType, Type};

verus! {

broadcast use vstd::std_specs::hash::group_hash_axioms;

/// An entry of a typing context.
#[derive(Debug)]
pub enum Log {
    Variable(Id),
    TypedVariable(Id, Type),
    Existential(Id),
    Solved(Id, Type),
    Marker(Id),
    Effect(EffectExpr),
}

/// Mathematical model of [`Log`].
pub enum SpecLog {
    Variable(Id),
    TypedVariable(Id, SpecType),
    Existential(Id),
    Solved(Id, SpecType),
    Marker(Id),
    Effect(SpecEffectExpr),
}

impl View for Log {
    type V = SpecLog;

    open spec fn view(&self) -> SpecLog {
        match self {
            Log::Variable(id) => SpecLog::Variable(*id),
            Log::TypedVariable(id, t) => SpecLog::TypedVariable(*id, t@),
            Log::Existential(id) => SpecLog::Existential(*id),
            Log::Solved(id, t) => SpecLog::Solved(*id, t@),
            Log::Marker(id) => SpecLog::Marker(*id),
            Log::Effect(e) => SpecLog::Effect(e@),
        }
    }
}

impl Log {
    /// A copy of the entry with the same model.
    pub fn clone_log(&self) -> (r: Log)
        ensures
            r@ == self@,
    {
        match self {
            Log::Variable(id) => Log::Variable(*id),
            Log::TypedVariable(id, t) => Log::TypedVariable(*id, t.clone_type()),
            Log::Existential(id) => Log::Existential(*id),
            Log::Solved(id, t) => Log::Solved(*id, t.clone_type()),
            Log::Marker(id) => Log::Marker(*id),
            Log::Effect(e) => Log::Effect(e.clone_expr()),
        }
    }
}

impl Clone for Log {
    fn clone(&self) -> (r: Log)
        ensures
            r@ == self@,
    {
        self.clone_log()
    }
}

impl PartialEq for Log {
    fn eq(&self, other: &Self) -> (r: bool) {
        match (self, other) {
            (Log::Variable(a), Log::Variable(b)) => *a == *b,
            (Log::TypedVariable(a, s), Log::TypedVariable(b, t)) => *a == *b && s == t,
            (Log::Existential(a), Log::Existential(b)) => *a == *b,
            (Log::Solved(a, s), Log::Solved(b, t)) => *a == *b && s == t,
            (Log::Marker(a), Log::Marker(b)) => *a == *b,
            (Log::Effect(e), Log::Effect(f)) => e == f,
            _ => false,
        }
    }
}

impl PartialEqSpecImpl for Log {
    open spec fn obeys_eq_spec() -> bool {
        true
    }

    open spec fn eq_spec(&self, other: &Self) -> bool {
        self@ == other@
    }
}

impl Eq for Log {
}

/// The identifier that follows `n`; the counter wraps around at the end of
/// the range of `usize`.
pub open spec fn succ_id(n: Id) -> Id {
    if n == usize::MAX { 0 } else { (n + 1) as usize }
}

/// Source of fresh identifiers.
#[derive(Debug)]
pub struct IdGen {
    pub next_id: Id,
}

impl IdGen {
    /// Hands out the current identifier and advances the counter.
    pub fn next_id(&mut self) -> (r: Id)
        ensures
            r == old(self).next_id,
            final(self).next_id == succ_id(old(self).next_id),
    {
        let id = self.next_id;
        self.next_id = if id == usize::MAX { 0 } else { id + 1 };
        id
    }
}

/// Errors of type inference.
#[derive(Debug)]
pub enum TypeError {
    NotSubtype { sub: Type, ty: Type },
    CircularExistential { id: Id, ty: Type },
    NotInstantiableSubtype { ty: Type },
    NotInstantiableSupertype { ty: Type },
    VariableNotTyped { id: Id },
    ContinueOutOfHandle,
}

/// Mathematical model of [`TypeError`].
pub enum SpecTypeError {
    NotSubtype { sub: SpecType, ty: SpecType },
    CircularExistential { id: Id, ty: SpecType },
    NotInstantiableSubtype { ty: SpecType },
    NotInstantiableSupertype { ty: SpecType },
    VariableNotTyped { id: Id },
    ContinueOutOfHandle,
}

impl View for TypeError {
    type V = SpecTypeError;

    open spec fn view(&self) -> SpecTypeError {
        match self {
            TypeError::NotSubtype { sub, ty } => SpecTypeError::NotSubtype { sub: sub@, ty: ty@ },
            TypeError::CircularExistential { id, ty } => SpecTypeError::CircularExistential { id: *id, ty: ty@ },
            TypeError::NotInstantiableSubtype { ty } => SpecTypeError::NotInstantiableSubtype { ty: ty@ },
            TypeError::NotInstantiableSupertype { ty } => SpecTypeError::NotInstantiableSupertype { ty: ty@ },
            TypeError::VariableNotTyped { id } => SpecTypeError::VariableNotTyped { id: *id },
            TypeError::ContinueOutOfHandle => SpecTypeError::ContinueOutOfHandle,
        }
    }
}

impl PartialEq for TypeError {
    fn eq(&self, other: &Self) -> (r: bool) {
        match (self, other) {
            (TypeError::NotSubtype { sub: a, ty: b }, TypeError::NotSubtype { sub: c, ty: d }) => a == c && b == d,
            (
                TypeError::CircularExistential { id: a, ty: b },
                TypeError::CircularExistential { id: c, ty: d },
            ) => *a == *c && b == d,
            (TypeError::NotInstantiableSubtype { ty: a }, TypeError::NotInstantiableSubtype { ty: b }) => a == b,
            (TypeError::NotInstantiableSupertype { ty: a }, TypeError::NotInstantiableSupertype { ty: b }) => a == b,
            (TypeError::VariableNotTyped { id: a }, TypeError::VariableNotTyped { id: b }) => *a == *b,
            (TypeError::ContinueOutOfHandle, TypeError::ContinueOutOfHandle) => true,
            _ => false,
        }
    }
}

impl PartialEqSpecImpl for TypeError {
    open spec fn obeys_eq_spec() -> bool {
        true
    }

    open spec fn eq_spec(&self, other: &Self) -> bool {
        self@ == other@
    }
}

/// The models of the values of a map from identifiers to types.
pub open spec fn type_map_view(m: Map<Id, Type>) -> Map<Id, SpecType> {
    Map::new(|k: Id| m.contains_key(k), |k: Id| m[k]@)
}

/// A typing context.
///
/// The identifier counter and the table of stored types are not part of a
/// context: every context of one inference shares them, so the operations
/// that use them take them as a separate argument.
#[derive(Debug)]
pub struct Ctx {
    pub logs: Vec<Log>,
    /// A stack: the input types of `continue` in the handlers being checked.
    pub continue_input: Vec<Type>,
    /// A stack: the output types of `continue` in the handlers being checked.
    pub continue_output: Vec<Type>,
    /// The types that inference holes stand for.
    pub inferred_types: HashMap<Id, Type>,
}

/// Mathematical model of [`Ctx`].
pub struct SpecCtx {
    pub logs: Seq<SpecLog>,
    pub continue_input: Seq<SpecType>,
    pub continue_output: Seq<SpecType>,
    pub inferred_types: Map<Id, SpecType>,
}

impl View for Ctx {
    type V = SpecCtx;

    open spec fn view(&self) -> SpecCtx {
        SpecCtx {
            logs: views(self.logs@),
            continue_input: views(self.continue_input@),
            continue_output: views(self.continue_output@),
            inferred_types: type_map_view(self.inferred_types@),
        }
    }
}

/// State shared by every context of one inference: the identifier counter
/// and the types stored for expressions and existentials.
#[derive(Debug)]
pub struct Store {
    pub id_gen: IdGen,
    pub types: HashMap<Id, Type>,
}

/// Mathematical model of [`Store`].
pub struct SpecStore {
    pub next_id: Id,
    pub types: Map<Id, SpecType>,
}

impl View for Store {
    type V = SpecStore;

    open spec fn view(&self) -> SpecStore {
        SpecStore { next_id: self.id_gen.next_id, types: type_map_view(self.types@) }
    }
}

/// The position of the first entry equal to `log`, or -1 when there is none.
pub open spec fn position_of(logs: Seq<SpecLog>, log: SpecLog) -> int
    decreases logs.len(),
{
    if logs.len() == 0 {
        -1
    } else if logs[0] == log {
        0
    } else {
        let p = position_of(logs.drop_first(), log);
        if p < 0 { -1 } else { p + 1 }
    }
}

/// What [`position_of`] means.
pub proof fn lemma_position_of(logs: Seq<SpecLog>, log: SpecLog)
    ensures
        -1 <= position_of(logs, log) < logs.len(),
        position_of(logs, log) == -1 <==> !logs.contains(log),
        position_of(logs, log) >= 0 ==> logs[position_of(logs, log)] == log,
        forall|j: int| 0 <= j < position_of(logs, log) ==> logs[j] != log,
    decreases logs.len(),
{
    if logs.len() > 0 {
        lemma_position_of(logs.drop_first(), log);
        if logs[0] != log {
            let p = position_of(logs.drop_first(), log);
            if p < 0 {
                if logs.contains(log) {
                    let k = choose|k: int| 0 <= k < logs.len() && logs[k] == log;
                    assert(logs.drop_first()[k - 1] == log);
                }
            } else {
                assert forall|j: int| 0 <= j < p + 1 implies logs[j] != log by {
                    if j > 0 {
                        assert(logs[j] == logs.drop_first()[j - 1]);
                    }
                }
                assert(logs.drop_first().contains(log));
            }
        }
    }
}

/// The effects recorded in `logs`, in order.
pub open spec fn log_effects(logs: Seq<SpecLog>) -> Seq<SpecEffectExpr>
    decreases logs.len(),
{
    if logs.len() == 0 {
        seq![]
    } else {
        let rest = log_effects(logs.drop_last());
        match logs.last() {
            SpecLog::Effect(e) => rest.push(e),
            _ => rest,
        }
    }
}

/// The entries of `logs` that are not effects, in order.
pub open spec fn log_non_effects(logs: Seq<SpecLog>) -> Seq<SpecLog>
    decreases logs.len(),
{
    if logs.len() == 0 {
        seq![]
    } else {
        let rest = log_non_effects(logs.drop_last());
        match logs.last() {
            SpecLog::Effect(_) => rest,
            _ => rest.push(logs.last()),
        }
    }
}

impl SpecCtx {
    /// The context with `log` appended.
    pub open spec fn add(self, log: SpecLog) -> SpecCtx {
        SpecCtx { logs: self.logs.push(log), ..self }
    }

    /// The context with the first entry equal to `log` replaced by `new`.
    pub open spec fn insert_in_place(self, log: SpecLog, new: Seq<SpecLog>) -> SpecCtx {
        let i = position_of(self.logs, log);
        SpecCtx { logs: self.logs.take(i) + new + self.logs.skip(i + 1), ..self }
    }

    /// The context cut before the first entry equal to `log`, and the sum of
    /// the effects recorded from that entry on.
    pub open spec fn truncate_from(self, log: SpecLog) -> (SpecCtx, SpecEffectExpr) {
        let i = position_of(self.logs, log);
        (SpecCtx { logs: self.logs.take(i), ..self }, SpecEffectExpr::Add(log_effects(self.logs.skip(i))))
    }

    /// The context with the effects `e` recorded at its end.
    pub open spec fn recover_effects(self, e: SpecEffectExpr) -> SpecCtx {
        self.add(SpecLog::Effect(e))
    }

    pub open spec fn has_log(self, log: SpecLog) -> bool {
        self.logs.contains(log)
    }
}

impl Ctx {
    /// A copy of the context with the same model.
    pub fn clone_ctx(&self) -> (r: Ctx)
        ensures
            r@ == self@,
    {
        let mut logs: Vec<Log> = Vec::new();
        let mut i: usize = 0;
        while i < self.logs.len()
            invariant
                i <= self.logs@.len(),
                logs@.len() == i,
                forall|j: int| 0 <= j < i ==> logs@[j]@ == self.logs@[j]@,
            decreases self.logs@.len() - i,
        {
            logs.push(self.logs[i].clone_log());
            i += 1;
        }
        let r = Ctx {
            logs,
            continue_input: crate::ty::clone_types(&self.continue_input),
            continue_output: crate::ty::clone_types(&self.continue_output),
            inferred_types: clone_type_map(&self.inferred_types),
        };
        proof {
            assert(views(r.logs@) =~= views(self.logs@));
            assert(views(r.continue_input@) =~= crate::ty::types_view(r.continue_input@));
            assert(views(self.continue_input@) =~= crate::ty::types_view(self.continue_input@));
            assert(views(r.continue_output@) =~= crate::ty::types_view(r.continue_output@));
            assert(views(self.continue_output@) =~= crate::ty::types_view(self.continue_output@));
        }
        r
    }

    /// The position of the first entry equal to `log`.
    pub fn index(&self, log: &Log) -> (r: Option<usize>)
        ensures
            match r {
                Some(i) => i == position_of(self@.logs, log@),
                None => position_of(self@.logs, log@) == -1,
            },
    {
        proof { lemma_position_of(self@.logs, log@); }
        let mut i: usize = 0;
        while i < self.logs.len()
            invariant
                i <= self.logs@.len(),
                forall|j: int| 0 <= j < i ==> self@.logs[j] != log@,
                -1 <= position_of(self@.logs, log@) < self@.logs.len(),
                position_of(self@.logs, log@) == -1 <==> !self@.logs.contains(log@),
                position_of(self@.logs, log@) >= 0 ==> self@.logs[position_of(self@.logs, log@)] == log@,
                forall|j: int| 0 <= j < position_of(self@.logs, log@) ==> self@.logs[j] != log@,
            decreases self.logs@.len() - i,
        {
            assert(self@.logs[i as int] == self.logs@[i as int]@);
            if self.logs[i] == *log {
                assert(self@.logs.contains(log@));
                return Some(i);
            }
            i += 1;
        }
        None
    }

    /// The context with `log` appended.
    pub fn add(&self, log: Log) -> (r: Ctx)
        ensures
            r@ == self@.add(log@),
    {
        let mut r = self.clone_ctx();
        r.logs.push(log);
        proof { assert(views(r.logs@) =~= self@.logs.push(log@)); }
        r
    }
}

/// The models of an optional type.
pub open spec fn opt_view(o: Option<Type>) -> Option<SpecType> {
    match o {
        Some(t) => Some(t@),
        None => None,
    }
}

/// The solution recorded first for the existential `id`.
pub open spec fn solved_of(logs: Seq<SpecLog>, id: Id) -> Option<SpecType>
    decreases logs.len(),
{
    if logs.len() == 0 {
        None
    } else {
        match logs[0] {
            SpecLog::Solved(x, t) => if x == id { Some(t) } else { solved_of(logs.drop_first(), id) },
            _ => solved_of(logs.drop_first(), id),
        }
    }
}

/// The type recorded first for the variable `id`.
pub open spec fn typed_var_of(logs: Seq<SpecLog>, id: Id) -> Option<SpecType>
    decreases logs.len(),
{
    if logs.len() == 0 {
        None
    } else {
        match logs[0] {
            SpecLog::TypedVariable(x, t) => if x == id { Some(t) } else { typed_var_of(logs.drop_first(), id) },
            _ => typed_var_of(logs.drop_first(), id),
        }
    }
}

impl SpecCtx {
    /// The context without the scope opened by `Marker(scope)`: the entries
    /// after the marker stay, but for the effects, which come out summed.
    pub open spec fn end_scope(self, scope: Id) -> (SpecCtx, SpecEffectExpr) {
        let i = position_of(self.logs, SpecLog::Marker(scope));
        (
            SpecCtx { logs: self.logs.take(i) + log_non_effects(self.logs.skip(i + 1)), ..self },
            SpecEffectExpr::Add(log_effects(self.logs.skip(i + 1))),
        )
    }
}

/// A value together with the effects that were cut from its context.
#[derive(Debug)]
pub struct WithEffects<T>(pub T, pub EffectExpr);

impl WithEffects<Ctx> {
    /// The context with the cut effects recorded again at its end.
    pub fn recover_effects(self) -> (r: Ctx)
        ensures
            r@ == self.0@.recover_effects(self.1@),
    {
        let WithEffects(mut ctx, effects) = self;
        let ghost before = ctx@;
        ctx.logs.push(Log::Effect(effects));
        proof { assert(views(ctx.logs@) =~= before.logs.push(SpecLog::Effect(effects@))); }
        ctx
    }
}

proof fn lemma_views_subrange(s: Seq<Log>, a: int, b: int)
    requires
        0 <= a <= b <= s.len(),
    ensures
        views(s.subrange(a, b)) == views(s).subrange(a, b),
{
    assert(views(s.subrange(a, b)) =~= views(s).subrange(a, b));
}

impl Ctx {
    /// A fresh identifier from the shared counter.
    pub fn next_id(&self, store: &mut Store) -> (r: Id)
        ensures
            r == old(store)@.next_id,
            final(store)@ == (SpecStore { next_id: succ_id(old(store)@.next_id), ..old(store)@ }),
    {
        store.id_gen.next_id()
    }

    /// A fresh identifier for an existential.
    pub fn fresh_existential(&self, store: &mut Store) -> (r: Id)
        ensures
            r == old(store)@.next_id,
            final(store)@ == (SpecStore { next_id: succ_id(old(store)@.next_id), ..old(store)@ }),
    {
        store.id_gen.next_id()
    }

    /// The context with the first entry equal to `log` replaced by `logs`.
    pub fn insert_in_place(&self, log: &Log, logs: Vec<Log>) -> (r: Ctx)
        requires
            self@.has_log(log@),
        ensures
            r@ == self@.insert_in_place(log@, views(logs@)),
    {
        proof { lemma_position_of(self@.logs, log@); }
        let index = match self.index(log) {
            Some(i) => i,
            None => 0,
        };
        let mut out: Vec<Log> = Vec::new();
        let mut i: usize = 0;
        while i < index
            invariant
                index < self.logs@.len(),
                i <= index,
                out@.len() == i,
                forall|k: int| 0 <= k < i ==> out@[k]@ == self.logs@[k]@,
            decreases index - i,
        {
            out.push(self.logs[i].clone_log());
            i += 1;
        }
        let ghost given = views(logs@);
        let mut logs = logs;
        out.append(&mut logs);
        let len = self.logs.len();
        let mut j: usize = index + 1;
        while j < self.logs.len()
            invariant
                index < j <= self.logs@.len(),
                out@.len() == j - 1 + given.len(),
                forall|k: int| 0 <= k < index ==> out@[k]@ == self.logs@[k]@,
                forall|k: int| 0 <= k < given.len() ==> out@[index + k]@ == given[k],
                forall|k: int| index < k < j ==> out@[k - 1 + given.len()]@ == self.logs@[k]@,
            decreases self.logs@.len() - j,
        {
            out.push(self.logs[j].clone_log());
            j += 1;
        }
        let mut r = self.clone_ctx();
        r.logs = out;
        proof {
            let i = position_of(self@.logs, log@);
            assert(views(out@) =~= self@.logs.take(i) + given + self@.logs.skip(i + 1)) by {
                assert forall|k: int| 0 <= k < out@.len() implies views(out@)[k]
                    == (self@.logs.take(i) + given + self@.logs.skip(i + 1))[k] by {
                    if k < index {
                    } else if k < index + given.len() {
                        assert(out@[index + (k - index)]@ == given[k - index]);
                    } else {
                        let m = k + 1 - given.len();
                        assert(out@[m - 1 + given.len()]@ == self.logs@[m]@);
                    }
                }
            }
        }
        r
    }

    /// The context cut before the first entry equal to `log`, with the sum of
    /// the effects recorded from that entry on.
    pub fn truncate_from(&self, log: &Log) -> (r: WithEffects<Ctx>)
        requires
            self@.has_log(log@),
        ensures
            (r.0@, r.1@) == self@.truncate_from(log@),
    {
        proof { lemma_position_of(self@.logs, log@); }
        let index = match self.index(log) {
            Some(i) => i,
            None => 0,
        };
        let mut effects: Vec<EffectExpr> = Vec::new();
        let mut j: usize = index;
        while j < self.logs.len()
            invariant
                index <= j <= self.logs@.len(),
                views(effects@) == log_effects(self@.logs.subrange(index as int, j as int)),
            decreases self.logs@.len() - j,
        {
            proof {
                assert(self@.logs.subrange(index as int, j + 1).drop_last()
                    =~= self@.logs.subrange(index as int, j as int));
            }
            match &self.logs[j] {
                Log::Effect(e) => {
                    let ghost before = views(effects@);
                    effects.push(e.clone_expr());
                    proof { assert(views(effects@) =~= before.push(e@)); }
                },
                _ => {},
            }
            j += 1;
        }
        let mut cloned = self.clone_ctx();
        cloned.logs.truncate(index);
        proof {
            assert(self@.logs.subrange(index as int, self@.logs.len() as int) =~= self@.logs.skip(index as int));
            lemma_views_subrange(self.logs@, 0, index as int);
            assert(cloned@.logs =~= self@.logs.take(index as int));
            crate::ty::lemma_view_add(effects);
        }
        WithEffects(cloned, EffectExpr::Add(effects))
    }

    /// The variable `id` is in the context.
    pub fn has_variable(&self, id: &Id) -> (r: bool)
        ensures
            r == self@.has_log(SpecLog::Variable(*id)),
    {
        let mut i: usize = 0;
        while i < self.logs.len()
            invariant
                i <= self.logs@.len(),
                forall|k: int| 0 <= k < i ==> self@.logs[k] != SpecLog::Variable(*id),
            decreases self.logs@.len() - i,
        {
            assert(self@.logs[i as int] == self.logs@[i as int]@);
            match &self.logs[i] {
                Log::Variable(x) => if *x == *id {
                    return true;
                },
                _ => {},
            }
            i += 1;
        }
        false
    }

    /// The existential `id` is in the context, unsolved.
    pub fn has_existential(&self, id: &Id) -> (r: bool)
        ensures
            r == self@.has_log(SpecLog::Existential(*id)),
    {
        let mut i: usize = 0;
        while i < self.logs.len()
            invariant
                i <= self.logs@.len(),
                forall|k: int| 0 <= k < i ==> self@.logs[k] != SpecLog::Existential(*id),
            decreases self.logs@.len() - i,
        {
            assert(self@.logs[i as int] == self.logs@[i as int]@);
            match &self.logs[i] {
                Log::Existential(x) => if *x == *id {
                    return true;
                },
                _ => {},
            }
            i += 1;
        }
        false
    }

    /// The solution of the existential `id`, if the context records one.
    pub fn get_solved(&self, id: &Id) -> (r: Option<Type>)
        ensures
            opt_view(r) == solved_of(self@.logs, *id),
    {
        let mut i: usize = 0;
        assert(self@.logs.skip(0) =~= self@.logs);
        while i < self.logs.len()
            invariant
                i <= self.logs@.len(),
                solved_of(self@.logs, *id) == solved_of(self@.logs.skip(i as int), *id),
            decreases self.logs@.len() - i,
        {
            assert(self@.logs.skip(i as int)[0] == self.logs@[i as int]@);
            assert(self@.logs.skip(i as int).drop_first() =~= self@.logs.skip(i + 1));
            match &self.logs[i] {
                Log::Solved(x, t) => if *x == *id {
                    return Some(t.clone_type());
                },
                _ => {},
            }
            i += 1;
        }
        None
    }

    /// The type of the variable `id`, if the context records one.
    pub fn get_typed_var(&self, id: &Id) -> (r: Result<Type, TypeError>)
        ensures
            match r {
                Ok(t) => typed_var_of(self@.logs, *id) == Some(t@),
                Err(e) => typed_var_of(self@.logs, *id) == None::<SpecType>
                    && e@ == (SpecTypeError::VariableNotTyped { id: *id }),
            },
    {
        let mut i: usize = 0;
        assert(self@.logs.skip(0) =~= self@.logs);
        while i < self.logs.len()
            invariant
                i <= self.logs@.len(),
                typed_var_of(self@.logs, *id) == typed_var_of(self@.logs.skip(i as int), *id),
            decreases self.logs@.len() - i,
        {
            assert(self@.logs.skip(i as int)[0] == self.logs@[i as int]@);
            assert(self@.logs.skip(i as int).drop_first() =~= self@.logs.skip(i + 1));
            match &self.logs[i] {
                Log::TypedVariable(x, t) => if *x == *id {
                    return Ok(t.clone_type());
                },
                _ => {},
            }
            i += 1;
        }
        Err(TypeError::VariableNotTyped { id: *id })
    }

    /// Opens a scope: records a marker with a fresh identifier.
    pub fn begin_scope(&mut self, store: &mut Store) -> (r: Id)
        ensures
            r == old(store)@.next_id,
            final(store)@ == (SpecStore { next_id: succ_id(old(store)@.next_id), ..old(store)@ }),
            final(self)@ == old(self)@.add(SpecLog::Marker(r)),
    {
        let id = self.fresh_existential(store);
        let ghost before = self@;
        self.logs.push(Log::Marker(id));
        proof { assert(self@.logs =~= before.logs.push(SpecLog::Marker(id))); }
        id
    }

    /// Closes the scope opened by `Marker(scope)` and returns the sum of the
    /// effects recorded in it.
    pub fn end_scope(&mut self, scope: Id) -> (r: EffectExpr)
        requires
            old(self)@.has_log(SpecLog::Marker(scope)),
        ensures
            (final(self)@, r@) == old(self)@.end_scope(scope),
    {
        proof { lemma_position_of(self@.logs, SpecLog::Marker(scope)); }
        let marker = Log::Marker(scope);
        let index = match self.index(&marker) {
            Some(i) => i,
            None => 0,
        };
        let ghost old_logs = self@.logs;
        let mut kept: Vec<Log> = Vec::new();
        let mut i: usize = 0;
        while i < index
            invariant
                index < self.logs@.len(),
                i <= index,
                kept@.len() == i,
                forall|k: int| 0 <= k < i ==> kept@[k]@ == self.logs@[k]@,
            decreases index - i,
        {
            kept.push(self.logs[i].clone_log());
            i += 1;
        }
        proof { assert(views(kept@) =~= old_logs.take(index as int)); }
        let mut effects: Vec<EffectExpr> = Vec::new();
        let len = self.logs.len();
        let mut j: usize = index + 1;
        while j < self.logs.len()
            invariant
                index < j <= self.logs@.len(),
                old_logs == self@.logs,
                views(effects@) == log_effects(old_logs.subrange(index + 1, j as int)),
                views(kept@) == old_logs.take(index as int) + log_non_effects(old_logs.subrange(index + 1, j as int)),
            decreases self.logs@.len() - j,
        {
            proof {
                assert(old_logs.subrange(index + 1, j + 1).drop_last() =~= old_logs.subrange(index + 1, j as int));
                assert(old_logs.subrange(index + 1, j + 1).last() == self.logs@[j as int]@);
            }
            match &self.logs[j] {
                Log::Effect(e) => {
                    let ghost before = views(effects@);
                    effects.push(e.clone_expr());
                    proof { assert(views(effects@) =~= before.push(e@)); }
                },
                other => {
                    let ghost before = views(kept@);
                    kept.push(other.clone_log());
                    proof {
                        assert(views(kept@) =~= before.push(self.logs@[j as int]@));
                        assert(old_logs.take(index as int) + log_non_effects(old_logs.subrange(index + 1, j + 1))
                            =~= before.push(self.logs@[j as int]@));
                    }
                },
            }
            j += 1;
        }
        self.logs = kept;
        proof {
            assert(old_logs.subrange(index + 1, old_logs.len() as int) =~= old_logs.skip(index + 1));
            crate::ty::lemma_view_add(effects);
        }
        EffectExpr::Add(effects)
    }
}

/// `t` carrying the effects `e`, substituted from `c` and simplified, unless
/// they come out empty.
pub open spec fn ctx_with_effects(c: SpecCtx, t: SpecType, e: SpecEffectExpr) -> SpecType {
    let f = simp_expr(ctx_subst_expr(c, e), SIMPLIFY_DEPTH as nat);
    if expr_is_empty(f) { t } else { SpecType::Effectful { ty: Box::new(t), effects: f } }
}

/// `t` substituted from `c` and simplified.
pub open spec fn ctx_finalize(c: SpecCtx, t: SpecType) -> SpecType {
    simp_type(ctx_subst_type(c, t), SIMPLIFY_DEPTH as nat)
}

impl Ctx {
    /// A context with no entries, nothing on the `continue` stacks and no
    /// inferred holes.
    pub fn empty(&self) -> (r: Ctx)
        ensures
            r@.logs == Seq::<SpecLog>::empty(),
            r@.continue_input == Seq::<SpecType>::empty(),
            r@.continue_output == Seq::<SpecType>::empty(),
            r@.inferred_types == Map::<Id, SpecType>::empty(),
    {
        let r = Ctx {
            logs: Vec::new(),
            continue_input: Vec::new(),
            continue_output: Vec::new(),
            inferred_types: HashMap::new(),
        };
        proof {
            assert(r@.logs =~= Seq::<SpecLog>::empty());
            assert(r@.continue_input =~= Seq::<SpecType>::empty());
            assert(r@.continue_output =~= Seq::<SpecType>::empty());
            assert(r@.inferred_types =~= Map::<Id, SpecType>::empty());
        }
        r
    }

    /// The context with the effects recorded at its end.
    pub fn add_effects(&self, effects: &EffectExpr) -> (r: Ctx)
        ensures
            r@ == self@.add(SpecLog::Effect(effects@)),
    {
        self.add(Log::Effect(effects.clone_expr()))
    }

    /// `ty` carrying `effects`, as [`ctx_with_effects`] says.
    pub fn with_effects(&self, ty: Type, effects: EffectExpr) -> (r: Type)
        ensures
            r@ == ctx_with_effects(self@, ty@, effects@),
    {
        let mut effects = effects;
        self.substitute_from_ctx_effect_expr(&mut effects);
        simplify_effect_expr(&mut effects);
        if effects.is_empty() {
            ty
        } else {
            Type::Effectful { ty: Box::new(ty), effects }
        }
    }

    /// `ty` substituted from the context and simplified.
    pub fn finalize(&self, ty: &Type) -> (r: Type)
        ensures
            r@ == ctx_finalize(self@, ty@),
    {
        let mut ty = self.substitute_from_ctx(ty);
        simplify(&mut ty);
        ty
    }

    /// Stores, for the expression or existential `id`, `ty` carrying
    /// `effects`.
    pub fn store_type_and_effects(&self, store: &mut Store, id: Id, ty: Type, effects: EffectExpr)
        ensures
            final(store)@ == (SpecStore {
                types: old(store)@.types.insert(id, ctx_with_effects(self@, ty@, effects@)),
                ..old(store)@
            }),
    {
        let t = self.with_effects(ty, effects);
        let ghost before = store.types@;
        let ghost tv = t@;
        store.types.insert(id, t);
        proof { assert(type_map_view(store.types@) =~= type_map_view(before).insert(id, tv)); }
    }

    /// Records that the hole `infer` stands for `ty`.
    pub fn store_inferred_type(&mut self, infer: Id, ty: Type)
        ensures
            final(self)@ == (SpecCtx { inferred_types: old(self)@.inferred_types.insert(infer, ty@), ..old(self)@ }),
    {
        let ghost before = self.inferred_types@;
        let ghost tv = ty@;
        self.inferred_types.insert(infer, ty);
        proof { assert(type_map_view(self.inferred_types@) =~= type_map_view(before).insert(infer, tv)); }
    }

    /// The type stored for `id`, substituted from the context and simplified.
    pub fn get_type(&self, store: &Store, id: &Id) -> (r: Type)
        requires
            store@.types.contains_key(*id),
        ensures
            r@ == ctx_finalize(self@, store@.types[*id]),
    {
        match store.types.get(id) {
            Some(t) => self.finalize(t),
            None => Type::Number,
        }
    }
}

/// The first position of `log` in `a.push(log) + b` is the length of `a` when
/// `a` does not hold `log`.
pub proof fn lemma_position_after(a: Seq<SpecLog>, log: SpecLog, b: Seq<SpecLog>)
    requires
        !a.contains(log),
    ensures
        position_of(a.push(log) + b, log) == a.len(),
{
    let s = a.push(log) + b;
    lemma_position_of(s, log);
    assert(s[a.len() as int] == log);
    let p = position_of(s, log);
    if p < a.len() {
        assert(s[p] == a[p]);
    }
}

/// Closing a scope right after opening it, with `extra` recorded in between,
/// gives back the context as it was with the entries of `extra` that are not
/// effects, and the sum of the effects of `extra`.
pub proof fn law_end_scope_after_begin(c: SpecCtx, scope: Id, extra: Seq<SpecLog>)
    requires
        !c.has_log(SpecLog::Marker(scope)),
    ensures
        (SpecCtx { logs: c.logs.push(SpecLog::Marker(scope)) + extra, ..c }).end_scope(scope)
            == ((SpecCtx { logs: c.logs + log_non_effects(extra), ..c }), SpecEffectExpr::Add(log_effects(extra))),
{
    let s = c.logs.push(SpecLog::Marker(scope)) + extra;
    lemma_position_after(c.logs, SpecLog::Marker(scope), extra);
    assert(s.take(c.logs.len() as int) =~= c.logs);
    assert(s.skip(c.logs.len() as int + 1) =~= extra);
}

/// Opening a scope and closing it at once leaves the context as it was and
/// yields no effect.
pub proof fn law_empty_scope(c: SpecCtx, scope: Id)
    requires
        !c.has_log(SpecLog::Marker(scope)),
    ensures
        c.add(SpecLog::Marker(scope)).end_scope(scope) == (c, SpecEffectExpr::Add(seq![])),
{
    law_end_scope_after_begin(c, scope, seq![]);
    assert(c.logs.push(SpecLog::Marker(scope)) + seq![] =~= c.logs.push(SpecLog::Marker(scope)));
    assert(c.logs + log_non_effects(seq![]) =~= c.logs);
    assert(c.add(SpecLog::Marker(scope)) == (SpecCtx { logs: c.logs.push(SpecLog::Marker(scope)) + seq![], ..c }));
}

/// Cutting a context at an entry that was just appended, not an effect,
/// gives back the context as it was before, and no effect.
pub proof fn law_truncate_after_add(c: SpecCtx, log: SpecLog)
    requires
        !c.has_log(log),
        !(log is Effect),
    ensures
        c.add(log).truncate_from(log) == (c, SpecEffectExpr::Add(seq![])),
{
    lemma_position_after(c.logs, log, seq![]);
    assert(c.logs.push(log) + seq![] =~= c.logs.push(log));
    assert(c.logs.push(log).take(c.logs.len() as int) =~= c.logs);
    let t = c.logs.push(log).skip(c.logs.len() as int);
    assert(t =~= seq![log]);
    assert(t.drop_last() =~= Seq::<SpecLog>::empty());
    assert(log_effects(t.drop_last()) =~= Seq::<SpecEffectExpr>::empty());
    assert(log_effects(t) =~= Seq::<SpecEffectExpr>::empty());
}

/// Cutting a context at an entry and recording the cut effects again gives
/// the entries before it followed by the sum of the effects from it on.
pub proof fn law_truncate_then_recover(c: SpecCtx, log: SpecLog)
    requires
        c.has_log(log),
    ensures
        ({
            let (d, e) = c.truncate_from(log);
            let i = position_of(c.logs, log);
            &&& d.recover_effects(e).logs == c.logs.take(i).push(SpecLog::Effect(SpecEffectExpr::Add(log_effects(c.logs.skip(i)))))
            &&& d.recover_effects(e).inferred_types == c.inferred_types
            &&& d.recover_effects(e).continue_input == c.continue_input
            &&& d.recover_effects(e).continue_output == c.continue_output
        }),
{
}

/// Replacing the first entry equal to `log` by `log` itself leaves the
/// context unchanged.
pub proof fn law_insert_in_place_same(c: SpecCtx, log: SpecLog)
    requires
        c.has_log(log),
    ensures
        c.insert_in_place(log, seq![log]) == c,
{
    lemma_position_of(c.logs, log);
    let i = position_of(c.logs, log);
    assert(c.logs.take(i) + seq![log] + c.logs.skip(i + 1) =~= c.logs);
}

impl Default for IdGen {
    fn default() -> (r: IdGen)
        ensures
            r.next_id == 0,
    {
        IdGen { next_id: 0 }
    }
}

impl Default for Store {
    fn default() -> (r: Store)
        ensures
            r@.next_id == 0,
            r@.types == Map::<Id, SpecType>::empty(),
    {
        let r = Store { id_gen: IdGen { next_id: 0 }, types: HashMap::new() };
        proof { assert(r@.types =~= Map::<Id, SpecType>::empty()); }
        r
    }
}

impl Default for Ctx {
    fn default() -> (r: Ctx)
        ensures
            r@.logs == Seq::<SpecLog>::empty(),
            r@.continue_input == Seq::<SpecType>::empty(),
            r@.continue_output == Seq::<SpecType>::empty(),
            r@.inferred_types == Map::<Id, SpecType>::empty(),
    {
        let r = Ctx {
            logs: Vec::new(),
            continue_input: Vec::new(),
            continue_output: Vec::new(),
            inferred_types: HashMap::new(),
        };
        proof {
            assert(r@.logs =~= Seq::<SpecLog>::empty());
            assert(r@.continue_input =~= Seq::<SpecType>::empty());
            assert(r@.continue_output =~= Seq::<SpecType>::empty());
            assert(r@.inferred_types =~= Map::<Id, SpecType>::empty());
        }
        r
    }
}

/// A copy of a map from identifiers to types.
pub fn clone_type_map(m: &HashMap<Id, Type>) -> (r: HashMap<Id, Type>)
    ensures
        r@ == m@,
{
    m.clone()
}

} // verus!
