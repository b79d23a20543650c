use deskc::effect_expr::simplify_effect_expr;
use deskc::ty::{Effect, EffectExpr, Type};

fn number_to_string() -> Effect {
    Effect {
        input: Type::Number,
        output: Type::String,
    }
}

#[test]
fn simplify_effects() {
    let mut effects = EffectExpr::Effects(vec![number_to_string(), number_to_string()]);
    simplify_effect_expr(&mut effects);
    assert_eq!(effects, EffectExpr::Effects(vec![number_to_string()]));
}

#[test]
fn simplify_add() {
    let mut effects = EffectExpr::Add(vec![
        EffectExpr::Effects(vec![number_to_string()]),
        EffectExpr::Effects(vec![]),
    ]);
    simplify_effect_expr(&mut effects);
    assert_eq!(effects, EffectExpr::Effects(vec![number_to_string()]));
}

#[test]
fn simplify_sub() {
    let mut effects = EffectExpr::Sub {
        minuend: Box::new(EffectExpr::Effects(vec![number_to_string()])),
        subtrahend: Box::new(EffectExpr::Effects(vec![number_to_string()])),
    };
    simplify_effect_expr(&mut effects);
    assert_eq!(effects, EffectExpr::Effects(vec![]));
}

#[test]
fn simplify_apply() {
    let mut effects = EffectExpr::Apply {
        function: Box::new(Type::ForAll {
            variable: 1,
            body: Box::new(Type::Function {
                parameter: Box::new(Type::String),
                body: Box::new(Type::Function {
                    parameter: Box::new(Type::Variable(1)),
                    body: Box::new(Type::Effectful {
                        ty: Box::new(Type::Number),
                        effects: EffectExpr::Add(vec![
                            EffectExpr::Effects(vec![number_to_string()]),
                            EffectExpr::Apply {
                                function: Box::new(Type::Variable(1)),
                                arguments: vec![Type::Number],
                            },
                        ]),
                    }),
                }),
            }),
        }),
        arguments: vec![
            Type::String,
            Type::Function {
                parameter: Box::new(Type::Number),
                body: Box::new(Type::Effectful {
                    ty: Box::new(Type::String),
                    effects: EffectExpr::Effects(vec![Effect {
                        input: Type::String,
                        output: Type::Number,
                    }]),
                }),
            },
        ],
    };
    simplify_effect_expr(&mut effects);
    assert_eq!(
        effects,
        EffectExpr::Effects(vec![
            number_to_string(),
            Effect {
                input: Type::String,
                output: Type::Number,
            }
        ])
    );
}

#[test]
fn simplifying_twice_changes_nothing() {
    let string_to_number = Effect { input: Type::String, output: Type::Number };
    let build = || EffectExpr::Add(vec![
        EffectExpr::Effects(vec![string_to_number.clone(), number_to_string()]),
        EffectExpr::Sub {
            minuend: Box::new(EffectExpr::Add(vec![EffectExpr::Effects(vec![number_to_string()])])),
            subtrahend: Box::new(EffectExpr::Add(vec![])),
        },
        EffectExpr::Add(vec![
            EffectExpr::Effects(vec![]),
            EffectExpr::Sub {
                minuend: Box::new(EffectExpr::Effects(vec![number_to_string()])),
                subtrahend: Box::new(EffectExpr::Add(vec![EffectExpr::Effects(vec![string_to_number.clone()])])),
            },
        ]),
    ]);
    let mut once = build();
    simplify_effect_expr(&mut once);
    let mut twice = once.clone();
    simplify_effect_expr(&mut twice);
    assert_eq!(twice, once);
}
