use deskc::conc_types::{ConcEffect, ConcEffectExpr, ConcType};
use deskc::concretizer::TypeConcretizer;
use deskc::types::{Effect, EffectExpr, Type};

fn dbg<T: std::fmt::Debug>(t: &T) -> String {
    format!("{:?}", t)
}

#[test]
fn sums_products_and_brands() {
    let mut c = TypeConcretizer {};
    let ty = Type::Product(vec![
        Type::Sum(vec![Type::Number, Type::String]),
        Type::Brand { brand: "b".to_string(), item: Box::new(Type::Vector(Box::new(Type::Number))) },
    ]);
    let expected = ConcType::Tuple(vec![
        ConcType::Enum(vec![ConcType::Number, ConcType::String]),
        ConcType::Label { label: "b".to_string(), item: Box::new(ConcType::Array(Box::new(ConcType::Number))) },
    ]);
    assert_eq!(dbg(&c.gen_conc_type(&ty)), dbg(&expected));
}

#[test]
fn functions_and_effects() {
    let mut c = TypeConcretizer {};
    let effects = EffectExpr::Add(vec![EffectExpr::Effects(vec![Effect { input: Type::Number, output: Type::String }])]);
    let ty = Type::Function {
        parameters: vec![Type::Variable(1), Type::SetOf(Box::new(Type::String))],
        body: Box::new(Type::Effectful { ty: Box::new(Type::Number), effects }),
    };
    let expected = ConcType::Function {
        parameters: vec![ConcType::Variable(1), ConcType::SetOf(Box::new(ConcType::String))],
        body: Box::new(ConcType::Effectful {
            ty: Box::new(ConcType::Number),
            effects: ConcEffectExpr::Add(vec![ConcEffectExpr::Effects(vec![ConcEffect {
                input: ConcType::Number,
                output: ConcType::String,
            }])]),
        }),
    };
    assert_eq!(dbg(&c.gen_conc_type(&ty)), dbg(&expected));
    let apply = EffectExpr::Apply { function: Box::new(Type::Variable(2)), arguments: vec![Type::Number] };
    assert_eq!(
        dbg(&c.gen_conc_effect_expr(&apply)),
        dbg(&ConcEffectExpr::Apply { function: Box::new(ConcType::Variable(2)), arguments: vec![ConcType::Number] })
    );
    let sub = EffectExpr::Sub { minuend: Box::new(EffectExpr::Effects(vec![])), subtrahend: Box::new(EffectExpr::Add(vec![])) };
    assert_eq!(
        dbg(&c.gen_conc_effect_expr(&sub)),
        dbg(&ConcEffectExpr::Sub { minuend: Box::new(ConcEffectExpr::Effects(vec![])), subtrahend: Box::new(ConcEffectExpr::Add(vec![])) })
    );
}

#[test]
fn brand_and_label_alike() {
    let mut c = TypeConcretizer {};
    let b = c.gen_conc_type(&Type::Brand { brand: "n".to_string(), item: Box::new(Type::Number) });
    let l = c.gen_conc_type(&Type::Label { label: "n".to_string(), item: Box::new(Type::Number) });
    assert_eq!(dbg(&b), dbg(&l));
    let f = c.gen_conc_type(&Type::ForAll { variable: 3, body: Box::new(Type::Variable(3)) });
    assert_eq!(dbg(&f), dbg(&ConcType::ForAll { variable: 3, body: Box::new(ConcType::Variable(3)) }));
}
