use std::collections::HashMap;

use deskc::ctx::Ctx;
use deskc::ty::{Effect, EffectExpr, Type};
use deskc::utils::{sum_all, with_effects};

fn empty_ctx() -> Ctx {
    Ctx { logs: vec![], continue_input: vec![], continue_output: vec![], inferred_types: HashMap::new() }
}

#[test]
fn with_effects_attaches_a_nonempty_list() {
    assert_eq!(with_effects(Type::Number, vec![]), Type::Number);
    let e = Effect { input: Type::Number, output: Type::String };
    assert_eq!(
        with_effects(Type::Number, vec![e.clone()]),
        Type::Effectful { ty: Box::new(Type::Number), effects: EffectExpr::Effects(vec![e]) }
    );
}

#[test]
fn sum_all_flattens_sorts_and_dedups() {
    let ctx = empty_ctx();
    assert_eq!(
        sum_all(&ctx, vec![Type::Sum(vec![Type::String, Type::Number]), Type::Number, Type::String]),
        Type::Sum(vec![Type::Number, Type::String])
    );
    assert_eq!(sum_all(&ctx, vec![Type::Number, Type::Number]), Type::Number);
    assert_eq!(sum_all(&ctx, vec![]), Type::Sum(vec![]));
}

#[test]
fn sum_all_ignores_order() {
    let ctx = empty_ctx();
    let a = sum_all(&ctx, vec![Type::String, Type::Array(Box::new(Type::Number)), Type::Number]);
    let b = sum_all(&ctx, vec![Type::Number, Type::String, Type::Array(Box::new(Type::Number)), Type::String]);
    assert_eq!(a, b);
    assert_eq!(a, Type::Sum(vec![Type::Number, Type::String, Type::Array(Box::new(Type::Number))]));
}
