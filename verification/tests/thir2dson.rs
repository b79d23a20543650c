use deskc::dson::{self, Dson};
use deskc::thir::{Expr, Literal, MapElem, TypedHir};
use deskc::types::Type;
use deskc::thir2dson::{thir_to_dson, HirToJsonError};

fn hir(expr: Expr) -> TypedHir {
    TypedHir { id: 0, ty: Type::Number, expr }
}

fn dbg<T: std::fmt::Debug>(t: &T) -> String {
    format!("{:?}", t)
}

#[test]
fn literals_become_data() {
    let r = thir_to_dson(&hir(Expr::Literal(Literal::Int(3)))).unwrap();
    assert_eq!(dbg(&r), dbg(&Dson::Literal(dson::Literal::Integer(3))));
    let r = thir_to_dson(&hir(Expr::Literal(Literal::Rational(1, 2)))).unwrap();
    assert_eq!(dbg(&r), dbg(&Dson::Literal(dson::Literal::Rational(1, 2))));
    let r = thir_to_dson(&hir(Expr::Literal(Literal::Float(1.5f64.to_bits())))).unwrap();
    assert_eq!(dbg(&r), dbg(&Dson::Literal(dson::Literal::Float(1.5f64.to_bits()))));
    let r = thir_to_dson(&hir(Expr::Literal(Literal::String("s".to_string())))).unwrap();
    assert_eq!(dbg(&r), dbg(&Dson::Literal(dson::Literal::String("s".to_string()))));
}

#[test]
fn compound_data() {
    let e = hir(Expr::Product(vec![
        hir(Expr::Vector(vec![hir(Expr::Literal(Literal::Int(1)))])),
        hir(Expr::MapOf(vec![MapElem {
            key: hir(Expr::Literal(Literal::String("k".to_string()))),
            value: hir(Expr::Label {
                label: Dson::Literal(dson::Literal::String("l".to_string())),
                item: Box::new(hir(Expr::Literal(Literal::Int(2)))),
            }),
        }])),
    ]));
    let expected = Dson::Product(vec![
        Dson::Vector(vec![Dson::Literal(dson::Literal::Integer(1))]),
        Dson::MapOf(vec![dson::MapElem {
            key: Dson::Literal(dson::Literal::String("k".to_string())),
            value: Dson::Labeled {
                label: Box::new(Dson::Literal(dson::Literal::String("l".to_string()))),
                expr: Box::new(Dson::Literal(dson::Literal::Integer(2))),
            },
        }]),
    ]);
    assert_eq!(dbg(&thir_to_dson(&e).unwrap()), dbg(&expected));
}

#[test]
fn other_forms_are_not_allowed() {
    let cases = vec![
        (Expr::Do, "do"),
        (Expr::Let, "let"),
        (Expr::Perform, "perform"),
        (Expr::Handle, "handle"),
        (Expr::Apply, "apply"),
        (Expr::Match, "match"),
        (Expr::Function, "function"),
    ];
    for (expr, name) in cases {
        match thir_to_dson(&hir(expr)) {
            Err(HirToJsonError::NotAllowed(s)) => assert_eq!(s, name),
            Ok(_) => panic!("converted"),
        }
    }
}

#[test]
fn first_failing_part_gives_the_error() {
    let e = hir(Expr::Product(vec![
        hir(Expr::Literal(Literal::Int(1))),
        hir(Expr::Let),
        hir(Expr::Function),
    ]));
    match thir_to_dson(&e) {
        Err(HirToJsonError::NotAllowed(s)) => assert_eq!(s, "let"),
        Ok(_) => panic!("converted"),
    }
    let m = hir(Expr::MapOf(vec![MapElem { key: hir(Expr::Match), value: hir(Expr::Apply) }]));
    match thir_to_dson(&m) {
        Err(HirToJsonError::NotAllowed(s)) => assert_eq!(s, "match"),
        Ok(_) => panic!("converted"),
    }
}

#[test]
fn product_fails_with_first_failing_part() {
    let e = hir(Expr::Product(vec![
        hir(Expr::Literal(Literal::Int(1))),
        hir(Expr::Let),
        hir(Expr::Apply),
    ]));
    assert_eq!(dbg(&thir_to_dson(&e).unwrap_err()), dbg(&HirToJsonError::NotAllowed("let".to_string())));
    let e = hir(Expr::Vector(vec![hir(Expr::Literal(Literal::Int(1))), hir(Expr::Literal(Literal::Int(2)))]));
    assert_eq!(
        dbg(&thir_to_dson(&e).unwrap()),
        dbg(&Dson::Vector(vec![Dson::Literal(dson::Literal::Integer(1)), Dson::Literal(dson::Literal::Integer(2))]))
    );
}
