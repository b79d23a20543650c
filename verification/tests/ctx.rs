use std::collections::HashMap;

use deskc::ctx::{Ctx, IdGen, Log, Store, TypeError};
use deskc::ty::{Effect, EffectExpr, Type};

fn ctx_with(logs: Vec<Log>) -> Ctx {
    Ctx {
        logs,
        continue_input: vec![],
        continue_output: vec![],
        inferred_types: HashMap::new(),
    }
}

fn store_from(next_id: usize) -> Store {
    Store {
        id_gen: IdGen { next_id },
        types: HashMap::new(),
    }
}

fn effect(input: Type, output: Type) -> EffectExpr {
    EffectExpr::Effects(vec![Effect { input, output }])
}

#[test]
fn index_finds_first_entry() {
    let ctx = ctx_with(vec![Log::Variable(1), Log::Existential(2), Log::Variable(1)]);
    assert_eq!(ctx.index(&Log::Variable(1)), Some(0));
    assert_eq!(ctx.index(&Log::Existential(2)), Some(1));
    assert_eq!(ctx.index(&Log::Marker(9)), None);
}

#[test]
fn add_appends() {
    let ctx = ctx_with(vec![Log::Variable(1)]);
    let added = ctx.add(Log::Existential(4));
    assert_eq!(added.logs, vec![Log::Variable(1), Log::Existential(4)]);
    assert_eq!(ctx.logs, vec![Log::Variable(1)]);
}

#[test]
fn insert_in_place_replaces_first_entry() {
    let ctx = ctx_with(vec![Log::Existential(1), Log::Existential(2), Log::Existential(3)]);
    let replaced = ctx.insert_in_place(
        &Log::Existential(2),
        vec![Log::Existential(7), Log::Solved(2, Type::Number)],
    );
    assert_eq!(
        replaced.logs,
        vec![
            Log::Existential(1),
            Log::Existential(7),
            Log::Solved(2, Type::Number),
            Log::Existential(3)
        ]
    );
}

#[test]
fn insert_in_place_with_itself_is_identity() {
    let logs = vec![Log::Variable(3), Log::Marker(4), Log::Existential(5)];
    let ctx = ctx_with(logs);
    let same = ctx.insert_in_place(&Log::Marker(4), vec![Log::Marker(4)]);
    assert_eq!(same.logs, ctx.logs);
}

#[test]
fn truncate_from_collects_effects() {
    let a = effect(Type::Number, Type::String);
    let b = effect(Type::String, Type::Number);
    let ctx = ctx_with(vec![
        Log::Variable(1),
        Log::Marker(5),
        Log::Effect(a.clone()),
        Log::Existential(3),
        Log::Effect(b.clone()),
    ]);
    let cut = ctx.truncate_from(&Log::Marker(5));
    assert_eq!(cut.0.logs, vec![Log::Variable(1)]);
    assert_eq!(cut.1, EffectExpr::Add(vec![a.clone(), b.clone()]));
    let recovered = cut.recover_effects();
    assert_eq!(
        recovered.logs,
        vec![Log::Variable(1), Log::Effect(EffectExpr::Add(vec![a, b]))]
    );
}

#[test]
fn truncate_after_add_gives_back_context() {
    let ctx = ctx_with(vec![Log::Variable(1), Log::Existential(2)]);
    let cut = ctx.add(Log::Marker(8)).truncate_from(&Log::Marker(8));
    assert_eq!(cut.0.logs, ctx.logs);
    assert_eq!(cut.1, EffectExpr::Add(vec![]));
}

#[test]
fn scope_keeps_entries_and_returns_effects() {
    let mut store = store_from(7);
    let mut ctx = ctx_with(vec![Log::Variable(1)]);
    let scope = ctx.begin_scope(&mut store);
    assert_eq!(scope, 7);
    assert_eq!(store.id_gen.next_id, 8);
    assert_eq!(ctx.logs, vec![Log::Variable(1), Log::Marker(7)]);
    let e = effect(Type::Number, Type::Number);
    ctx.logs.push(Log::Effect(e.clone()));
    ctx.logs.push(Log::Variable(3));
    let effects = ctx.end_scope(scope);
    assert_eq!(effects, EffectExpr::Add(vec![e]));
    assert_eq!(ctx.logs, vec![Log::Variable(1), Log::Variable(3)]);
}

#[test]
fn empty_scope_changes_nothing() {
    let mut store = store_from(0);
    let mut ctx = ctx_with(vec![Log::Existential(4)]);
    let scope = ctx.begin_scope(&mut store);
    let effects = ctx.end_scope(scope);
    assert_eq!(effects, EffectExpr::Add(vec![]));
    assert_eq!(ctx.logs, vec![Log::Existential(4)]);
}

#[test]
fn lookups() {
    let ctx = ctx_with(vec![
        Log::Variable(1),
        Log::Existential(2),
        Log::Solved(3, Type::Number),
        Log::TypedVariable(4, Type::String),
        Log::Solved(3, Type::String),
    ]);
    assert!(ctx.has_variable(&1));
    assert!(!ctx.has_variable(&2));
    assert!(ctx.has_existential(&2));
    assert!(!ctx.has_existential(&3));
    assert_eq!(ctx.get_solved(&3), Some(Type::Number));
    assert_eq!(ctx.get_solved(&2), None);
    assert_eq!(ctx.get_typed_var(&4), Ok(Type::String));
    assert_eq!(
        ctx.get_typed_var(&1),
        Err(TypeError::VariableNotTyped { id: 1 })
    );
}

#[test]
fn ids_are_fresh_and_wrap() {
    let ctx = ctx_with(vec![]);
    let mut store = store_from(3);
    assert_eq!(ctx.next_id(&mut store), 3);
    assert_eq!(ctx.fresh_existential(&mut store), 4);
    assert_eq!(store.id_gen.next_id, 5);
    let mut end = store_from(usize::MAX);
    assert_eq!(end.id_gen.next_id(), usize::MAX);
    assert_eq!(end.id_gen.next_id, 0);
}

#[test]
fn substitute_from_ctx_replaces_what_is_known() {
    let mut ctx = ctx_with(vec![
        Log::Solved(1, Type::Number),
        Log::TypedVariable(2, Type::String),
    ]);
    ctx.store_inferred_type(3, Type::Label { label: "l".to_string(), item: Box::new(Type::Number) });
    let ty = Type::Product(vec![
        Type::Existential(1),
        Type::Variable(2),
        Type::Infer(3),
        Type::Existential(4),
    ]);
    assert_eq!(
        ctx.substitute_from_ctx(&ty),
        Type::Product(vec![
            Type::Number,
            Type::String,
            Type::Label { label: "l".to_string(), item: Box::new(Type::Number) },
            Type::Existential(4),
        ])
    );
    let mut expr = EffectExpr::Effects(vec![Effect { input: Type::Existential(1), output: Type::Variable(2) }]);
    ctx.substitute_from_ctx_effect_expr(&mut expr);
    assert_eq!(expr, effect(Type::Number, Type::String));
}

#[test]
fn well_formedness() {
    let ctx = ctx_with(vec![
        Log::Variable(1),
        Log::Existential(2),
        Log::Solved(3, Type::Number),
    ]);
    assert!(ctx.is_well_formed(&Type::Function {
        parameter: Box::new(Type::Variable(1)),
        body: Box::new(Type::Product(vec![Type::Existential(2), Type::Existential(3)])),
    }));
    assert!(!ctx.is_well_formed(&Type::Array(Box::new(Type::Existential(9)))));
    assert!(!ctx.is_well_formed(&Type::ForAll { variable: 5, body: Box::new(Type::Variable(5)) }));
    assert!(!ctx.is_well_formed(&Type::Effectful {
        ty: Box::new(Type::Number),
        effects: effect(Type::Variable(8), Type::Number),
    }));
}

#[test]
fn with_effects_drops_empty_effects() {
    let ctx = ctx_with(vec![Log::Solved(1, Type::String)]);
    assert_eq!(ctx.with_effects(Type::Number, EffectExpr::Effects(vec![])), Type::Number);
    assert_eq!(
        ctx.with_effects(Type::Number, effect(Type::Existential(1), Type::Number)),
        Type::Effectful {
            ty: Box::new(Type::Number),
            effects: effect(Type::String, Type::Number),
        }
    );
    assert_eq!(
        ctx.add_effects(&effect(Type::Number, Type::Number)).logs,
        vec![Log::Solved(1, Type::String), Log::Effect(effect(Type::Number, Type::Number))]
    );
}

#[test]
fn stored_types_come_back_finalized() {
    let ctx = ctx_with(vec![Log::Solved(1, Type::Number)]);
    let mut store = store_from(0);
    ctx.store_type_and_effects(&mut store, 10, Type::Existential(1), EffectExpr::Add(vec![]));
    assert_eq!(store.types.get(&10), Some(&Type::Existential(1)));
    assert_eq!(ctx.get_type(&store, &10), Type::Number);
    ctx.store_type_and_effects(&mut store, 11, Type::String, EffectExpr::Effects(vec![]));
    assert_eq!(ctx.get_type(&store, &11), Type::String);
    store.types.insert(12, Type::Array(Box::new(Type::Existential(1))));
    assert_eq!(ctx.get_type(&store, &12), Type::Array(Box::new(Type::Number)));
    assert_eq!(ctx.finalize(&Type::Existential(1)), Type::Number);
    let empty = ctx.empty();
    assert!(empty.logs.is_empty());
}
