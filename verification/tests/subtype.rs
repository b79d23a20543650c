use std::collections::HashMap;

use deskc::ctx::{Ctx, IdGen, Log, Store, TypeError};
use deskc::ty::{Effect, EffectExpr, Type};

fn ctx_with(logs: Vec<Log>) -> Ctx {
    Ctx {
        logs,
        continue_input: vec![],
        continue_output: vec![],
        inferred_types: HashMap::new(),
    }
}

fn store_from(next_id: usize) -> Store {
    Store {
        id_gen: IdGen { next_id },
        types: HashMap::new(),
    }
}

fn brand(item: Type) -> Type {
    Type::Brand { brand: "brand".to_string(), item: Box::new(item) }
}

fn label(item: Type) -> Type {
    Type::Label { label: "labeled".to_string(), item: Box::new(item) }
}

#[test]
fn number_is_subtype_of_number() {
    let ctx = ctx_with(vec![Log::Variable(1)]);
    let mut store = store_from(0);
    let r = ctx.subtype(&mut store, &Type::Number, &Type::Number).unwrap();
    assert_eq!(r.logs, ctx.logs);
    assert_eq!(store.id_gen.next_id, 0);
}

#[test]
fn number_is_not_subtype_of_string() {
    let ctx = ctx_with(vec![]);
    let mut store = store_from(0);
    assert_eq!(
        ctx.subtype(&mut store, &Type::Number, &Type::String).unwrap_err(),
        TypeError::NotSubtype { sub: Type::Number, ty: Type::String }
    );
}

#[test]
fn plain_types_are_subtypes_of_themselves() {
    let ctx = ctx_with(vec![]);
    let mut store = store_from(0);
    let t = Type::Function {
        parameter: Box::new(Type::Product(vec![Type::Number, Type::String])),
        body: Box::new(Type::Sum(vec![Type::Array(Box::new(Type::Number)), Type::SetOf(Box::new(Type::String))])),
    };
    let r = ctx.subtype(&mut store, &t, &t).unwrap();
    assert!(r.logs.is_empty());
    assert_eq!(store.id_gen.next_id, 0);
}

#[test]
fn brand_is_not_a_supertype() {
    let ctx = ctx_with(vec![]);
    let mut store = store_from(0);
    assert_eq!(
        ctx.subtype(&mut store, &Type::Number, &brand(Type::Number)).unwrap_err(),
        TypeError::NotSubtype { sub: Type::Number, ty: brand(Type::Number) }
    );
}

#[test]
fn brand_is_a_subtype() {
    let ctx = ctx_with(vec![]);
    let mut store = store_from(0);
    assert!(ctx.subtype(&mut store, &brand(Type::Number), &Type::Number).is_ok());
}

#[test]
fn label_both_ways() {
    let ctx = ctx_with(vec![]);
    let mut store = store_from(0);
    assert!(ctx.subtype(&mut store, &label(Type::Number), &Type::Number).is_ok());
    assert!(ctx.subtype(&mut store, &Type::Number, &label(Type::Number)).is_ok());
}

#[test]
fn member_of_sum_and_product() {
    let ctx = ctx_with(vec![]);
    let mut store = store_from(0);
    assert!(ctx
        .subtype(&mut store, &Type::Number, &Type::Sum(vec![Type::String, Type::Number]))
        .is_ok());
    assert!(ctx
        .subtype(&mut store, &Type::Product(vec![Type::String, Type::Number]), &Type::Number)
        .is_ok());
    assert_eq!(
        ctx.subtype(&mut store, &Type::Sum(vec![Type::String, Type::Number]), &Type::Number).unwrap_err(),
        TypeError::NotSubtype { sub: Type::Sum(vec![Type::String, Type::Number]), ty: Type::Number }
    );
}

#[test]
fn existential_is_solved() {
    let ctx = ctx_with(vec![Log::Variable(9), Log::Existential(0)]);
    let mut store = store_from(5);
    let r = ctx.subtype(&mut store, &Type::Existential(0), &Type::Number).unwrap();
    assert_eq!(r.logs, vec![Log::Variable(9), Log::Solved(0, Type::Number)]);
    assert_eq!(store.types.get(&0), Some(&Type::Number));
    let r = ctx.subtype(&mut store, &Type::String, &Type::Existential(0)).unwrap();
    assert_eq!(r.logs, vec![Log::Variable(9), Log::Solved(0, Type::String)]);
    assert_eq!(store.types.get(&0), Some(&Type::String));
}

#[test]
fn circular_existential() {
    let ctx = ctx_with(vec![Log::Existential(0)]);
    let mut store = store_from(5);
    let array = Type::Array(Box::new(Type::Existential(0)));
    assert_eq!(
        ctx.subtype(&mut store, &Type::Existential(0), &array).unwrap_err(),
        TypeError::CircularExistential { id: 0, ty: array.clone() }
    );
    assert_eq!(
        ctx.subtype(&mut store, &array, &Type::Existential(0)).unwrap_err(),
        TypeError::CircularExistential { id: 0, ty: Type::Existential(0) }
    );
}

#[test]
fn forall_on_the_left_is_instantiated() {
    let ctx = ctx_with(vec![]);
    let mut store = store_from(10);
    let poly = Type::ForAll { variable: 1, body: Box::new(Type::Variable(1)) };
    let r = ctx.subtype(&mut store, &poly, &Type::Number).unwrap();
    assert_eq!(r.logs, vec![Log::Effect(EffectExpr::Add(vec![]))]);
    assert_eq!(store.id_gen.next_id, 11);
    assert_eq!(store.types.get(&10), Some(&Type::Number));
}

#[test]
fn forall_on_the_right_is_checked_abstractly() {
    let ctx = ctx_with(vec![]);
    let mut store = store_from(0);
    let poly = Type::ForAll { variable: 1, body: Box::new(Type::Variable(1)) };
    assert_eq!(
        ctx.subtype(&mut store, &Type::Number, &poly).unwrap_err(),
        TypeError::NotSubtype { sub: Type::Number, ty: Type::Variable(1) }
    );
    let r = ctx.subtype(&mut store, &Type::Variable(1), &poly).unwrap();
    assert_eq!(r.logs, vec![Log::Effect(EffectExpr::Add(vec![]))]);
}

#[test]
fn inference_hole_takes_the_other_type() {
    let ctx = ctx_with(vec![]);
    let mut store = store_from(0);
    let r = ctx.subtype(&mut store, &Type::Infer(3), &Type::String).unwrap();
    assert_eq!(r.inferred_types.get(&3), Some(&Type::String));
    let r = ctx.subtype(&mut store, &Type::Number, &Type::Infer(4)).unwrap();
    assert_eq!(r.inferred_types.get(&4), Some(&Type::Number));
}

#[test]
fn effects_of_the_subtype_are_recorded() {
    let ctx = ctx_with(vec![]);
    let mut store = store_from(0);
    let e = EffectExpr::Effects(vec![Effect { input: Type::Number, output: Type::String }]);
    let sub = Type::Effectful { ty: Box::new(Type::Number), effects: e.clone() };
    let r = ctx.subtype(&mut store, &sub, &Type::Number).unwrap();
    assert_eq!(r.logs, vec![Log::Effect(e.clone())]);
    let sup_effects = EffectExpr::Effects(vec![]);
    let sup = Type::Effectful { ty: Box::new(Type::Number), effects: sup_effects.clone() };
    let r = ctx.subtype(&mut store, &sub, &sup).unwrap();
    assert_eq!(
        r.logs,
        vec![Log::Effect(EffectExpr::Sub { minuend: Box::new(e), subtrahend: Box::new(sup_effects) })]
    );
    assert!(ctx.subtype(&mut store, &Type::Number, &sup).is_ok());
}

#[test]
fn function_parameters_and_bodies() {
    let ctx = ctx_with(vec![]);
    let mut store = store_from(0);
    let f = |p: Type, b: Type| Type::Function { parameter: Box::new(p), body: Box::new(b) };
    assert!(ctx
        .subtype(&mut store, &f(Type::Number, Type::String), &f(Type::Number, Type::String))
        .is_ok());
    assert_eq!(
        ctx.subtype(&mut store, &f(Type::Number, Type::String), &f(Type::String, Type::String)).unwrap_err(),
        TypeError::NotSubtype { sub: Type::Number, ty: Type::String }
    );
}

#[test]
fn instantiate_subtype_through_forall() {
    let ctx = ctx_with(vec![Log::Existential(0)]);
    let mut store = store_from(20);
    let sup = Type::ForAll { variable: 9, body: Box::new(Type::Number) };
    let r = ctx.instantiate_subtype(&mut store, &0, &sup).unwrap();
    assert_eq!(
        r.logs,
        vec![Log::Solved(0, Type::Number), Log::Effect(EffectExpr::Add(vec![]))]
    );
    assert_eq!(store.types.get(&0), Some(&sup));
    assert_eq!(store.id_gen.next_id, 20);
}

#[test]
fn instantiate_product_with_fresh_existentials() {
    let ctx = ctx_with(vec![Log::Existential(0), Log::Existential(7)]);
    let mut store = store_from(30);
    let sup = Type::Product(vec![Type::Existential(7), Type::Number]);
    let r = ctx.instantiate_subtype(&mut store, &0, &sup).unwrap();
    assert_eq!(
        r.logs,
        vec![
            Log::Solved(31, Type::Number),
            Log::Existential(30),
            Log::Solved(0, Type::Product(vec![Type::Existential(30), Type::Existential(31)])),
            Log::Solved(7, Type::Existential(30)),
        ]
    );
    assert_eq!(store.id_gen.next_id, 32);
}

#[test]
fn instantiate_supertype_of_array() {
    let ctx = ctx_with(vec![Log::Existential(0), Log::Existential(7)]);
    let mut store = store_from(40);
    let sub = Type::Array(Box::new(Type::Existential(7)));
    let r = ctx.instantiate_supertype(&mut store, &sub, &0).unwrap();
    assert_eq!(
        r.logs,
        vec![
            Log::Solved(40, Type::Existential(7)),
            Log::Solved(0, Type::Array(Box::new(Type::Existential(40)))),
            Log::Existential(7),
        ]
    );
}

#[test]
fn sets_are_not_instantiated_as_supertypes() {
    let ctx = ctx_with(vec![Log::Existential(0), Log::Existential(7)]);
    let mut store = store_from(40);
    let sub = Type::SetOf(Box::new(Type::Existential(7)));
    assert_eq!(
        ctx.instantiate_supertype(&mut store, &sub, &0).unwrap_err(),
        TypeError::NotInstantiableSupertype { ty: sub.clone() }
    );
    assert_eq!(
        ctx.instantiate_subtype(&mut store, &0, &Type::String).map(|c| c.logs),
        Ok(vec![Log::Solved(0, Type::String), Log::Existential(7)])
    );
}

#[test]
fn bound_check_without_bound_keeps_the_context() {
    let ctx = ctx_with(vec![Log::Variable(3)]);
    let mut store = store_from(5);
    let r = ctx.bound_check(&mut store, &Type::Number, &None).unwrap();
    assert_eq!(r.logs, ctx.logs);
    assert_eq!(store.id_gen.next_id, 5);
}

#[test]
fn bound_check_with_bound_subtypes() {
    let ctx = ctx_with(vec![]);
    let mut store = store_from(0);
    assert!(ctx.bound_check(&mut store, &Type::Number, &Some(Box::new(Type::Number))).is_ok());
    assert_eq!(
        ctx.bound_check(&mut store, &Type::Number, &Some(Box::new(Type::String))).unwrap_err(),
        TypeError::NotSubtype { sub: Type::Number, ty: Type::String }
    );
}
