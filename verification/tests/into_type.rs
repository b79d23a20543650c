use std::collections::HashMap;

use deskc::ctx::{Ctx, IdGen, Store};
use deskc::ty::{Effect, EffectExpr, Type};
use deskc::types;

fn dbg<T: std::fmt::Debug>(t: &T) -> String {
    format!("{:?}", t)
}

fn setup() -> (Ctx, Store) {
    let ctx = Ctx { logs: vec![], continue_input: vec![], continue_output: vec![], inferred_types: HashMap::new() };
    let mut types = HashMap::new();
    types.insert(5, Type::String);
    types.insert(6, Type::Existential(5));
    (ctx, Store { id_gen: IdGen { next_id: 0 }, types })
}

#[test]
fn curried_functions_are_uncurried() {
    let (ctx, store) = setup();
    let ty = Type::Function {
        parameter: Box::new(Type::Number),
        body: Box::new(Type::Function { parameter: Box::new(Type::String), body: Box::new(Type::Number) }),
    };
    let expected = types::Type::Function {
        parameters: vec![types::Type::Number, types::Type::String],
        body: Box::new(types::Type::Number),
    };
    assert_eq!(dbg(&ctx.gen_type(&store, &ty)), dbg(&expected));
}

#[test]
fn existentials_and_holes_take_their_stored_types() {
    let (ctx, store) = setup();
    let ty = Type::Product(vec![Type::Existential(6), Type::Infer(5), Type::Array(Box::new(Type::Number))]);
    let expected = types::Type::Product(vec![
        types::Type::String,
        types::Type::String,
        types::Type::Vector(Box::new(types::Type::Number)),
    ]);
    assert_eq!(dbg(&ctx.gen_type(&store, &ty)), dbg(&expected));
}

#[test]
fn effects_are_handed_on() {
    let (ctx, store) = setup();
    let e = EffectExpr::Effects(vec![Effect { input: Type::Existential(5), output: Type::Number }]);
    let expected = types::EffectExpr::Effects(vec![types::Effect { input: types::Type::String, output: types::Type::Number }]);
    assert_eq!(dbg(&ctx.gen_effect_expr(&store, &e)), dbg(&expected));
    let ty = Type::Effectful { ty: Box::new(Type::Number), effects: EffectExpr::Add(vec![e]) };
    let expected = types::Type::Effectful {
        ty: Box::new(types::Type::Number),
        effects: types::EffectExpr::Add(vec![expected]),
    };
    assert_eq!(dbg(&ctx.gen_type(&store, &ty)), dbg(&expected));
}
