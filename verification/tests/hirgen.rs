use deskc::amir::LinkName;
use deskc::ast::{self, Span, WithSpan};
use deskc::dson::{Dson, Literal as DsonLiteral};
use deskc::hir::{Expr, Literal, Type, WithMeta};
use deskc::hirgen::{gen_cards, gen_hir, HirGen, HirGenError};

fn dbg<T: std::fmt::Debug>(t: &T) -> String {
    format!("{:?}", t)
}

fn at<T>(id: u128, value: T) -> WithSpan<T> {
    WithSpan { id, value, span: Span { start: id as usize, end: id as usize + 1 } }
}

fn integer(i: i64) -> Dson {
    Dson::Literal(DsonLiteral::Integer(i))
}

fn text(s: &str) -> Dson {
    Dson::Literal(DsonLiteral::String(s.to_string()))
}

#[test]
fn lib_test() {
    let mut gen = HirGen::default();
    let hir = gen
        .gen_card(&at(
            0,
            ast::Expr::Apply {
                function: at(1, ast::Type::Real),
                link_name: LinkName::Unnamed,
                arguments: vec![at(
                    2,
                    ast::Expr::Attributed {
                        attr: integer(1),
                        item: Box::new(at(
                            3,
                            ast::Expr::Attributed {
                                attr: integer(2),
                                item: Box::new(at(4, ast::Expr::Literal(ast::Literal::Integer(3)))),
                            },
                        )),
                    },
                )],
            },
        ))
        .unwrap();
    assert_eq!(hir.meta.id, 0);
    assert!(hir.meta.attrs.is_empty());
    let Expr::Apply { function, link_name, arguments } = hir.value else { panic!("not an application") };
    assert_eq!(function.meta.id, 1);
    assert!(matches!(function.value, Type::Real));
    assert_eq!(link_name, LinkName::Unnamed);
    assert_eq!(arguments.len(), 1);
    assert_eq!(arguments[0].meta.id, 4);
    assert_eq!(dbg(&arguments[0].meta.attrs), dbg(&vec![integer(2), integer(1)]));
    assert!(matches!(arguments[0].value, Expr::Literal(Literal::Integer(3))));
    assert_eq!(gen.attrs.len(), 1);
    assert_eq!(dbg(gen.attrs.get(&4).unwrap()), dbg(&vec![integer(2), integer(1)]));
}

fn apply_labeled(id: u128, label: &str) -> WithSpan<ast::Expr> {
    at(
        id,
        ast::Expr::Apply {
            function: at(
                id + 1,
                ast::Type::Labeled { brand: text(label), item: Box::new(at(id + 2, ast::Type::Integer)) },
            ),
            link_name: LinkName::Unnamed,
            arguments: vec![],
        },
    )
}

fn labeled_function(e: &WithMeta<Expr>) -> (&'static str, String) {
    match &e.value {
        Expr::Apply { function, .. } => match &function.value {
            Type::Brand { brand, .. } => ("brand", dbg(brand)),
            Type::Label { label, .. } => ("label", dbg(label)),
            _ => panic!("not labeled"),
        },
        _ => panic!("not an application"),
    }
}

#[test]
fn labels_become_brands_once_declared() {
    let src = at(
        10,
        ast::Expr::Let {
            definition: Box::new(apply_labeled(20, "brand")),
            body: Box::new(at(
                30,
                ast::Expr::Brand {
                    brand: text("brand"),
                    item: Box::new(at(
                        40,
                        ast::Expr::Let {
                            definition: Box::new(apply_labeled(50, "brand")),
                            body: Box::new(apply_labeled(60, "label")),
                        },
                    )),
                },
            )),
        },
    );
    let (_, hir) = gen_hir(&src).unwrap();
    let Expr::Let { definition, expr } = &hir.value else { panic!("not a let") };
    assert_eq!(labeled_function(definition), ("label", dbg(&text("brand"))));
    let Expr::Let { definition: inner, expr: last } = &expr.value else { panic!("not a let") };
    assert_eq!(labeled_function(inner), ("brand", dbg(&text("brand"))));
    assert_eq!(labeled_function(last), ("label", dbg(&text("label"))));
}

#[test]
fn rest_of_a_file_without_cards() {
    let src = at(0, ast::Expr::Literal(ast::Literal::Integer(1)));
    let (_, cards) = gen_cards(&src).unwrap();
    assert!(cards.cards.is_empty());
    assert!(matches!(cards.file.value, Expr::Literal(Literal::Integer(1))));
    assert_eq!(cards.file.meta.id, 0);
    assert_eq!(cards.file.meta.span, Some(Span { start: 0, end: 1 }));
}

#[test]
fn cards_are_gathered() {
    let src = at(
        0,
        ast::Expr::Card {
            id: 77,
            item: Box::new(at(1, ast::Expr::Literal(ast::Literal::Integer(5)))),
            next: Box::new(at(2, ast::Expr::Literal(ast::Literal::String("rest".to_string())))),
        },
    );
    let (_, cards) = gen_cards(&src).unwrap();
    assert_eq!(cards.cards.len(), 1);
    assert_eq!(cards.cards[0].id, 77);
    assert!(matches!(cards.cards[0].hir.value, Expr::Literal(Literal::Integer(5))));
    assert!(matches!(&cards.file.value, Expr::Literal(Literal::String(s)) if s == "rest"));
}

#[test]
fn a_card_inside_an_expression_is_refused() {
    let src = at(
        0,
        ast::Expr::Product(vec![at(
            1,
            ast::Expr::Card {
                id: 9,
                item: Box::new(at(2, ast::Expr::Hole)),
                next: Box::new(at(3, ast::Expr::Hole)),
            },
        )]),
    );
    assert!(matches!(gen_hir(&src), Err(HirGenError::UnexpectedCard { card_id: 9 })));
}

#[test]
fn holes_perform_an_empty_product() {
    let (_, hir) = gen_hir(&at(5, ast::Expr::Hole)).unwrap();
    assert_eq!(hir.meta.id, 5);
    let Expr::Perform { input, output } = &hir.value else { panic!("not a perform") };
    assert!(input.meta.span.is_none());
    assert!(matches!(&input.value, Expr::Product(items) if items.is_empty()));
    assert!(output.meta.span.is_none());
    assert!(matches!(output.value, Type::Infer));
}

#[test]
fn new_types_stand_for_their_definition() {
    let src = at(
        0,
        ast::Expr::NewType {
            ident: "num".to_string(),
            ty: at(1, ast::Type::Integer),
            expr: Box::new(at(
                2,
                ast::Expr::Typed {
                    ty: at(3, ast::Type::Variable("num".to_string())),
                    item: Box::new(at(4, ast::Expr::Literal(ast::Literal::Integer(1)))),
                },
            )),
        },
    );
    let (gen, hir) = gen_hir(&src).unwrap();
    assert_eq!(gen.type_aliases.len(), 1);
    assert_eq!(gen.type_aliases[0].0, "num");
    let Expr::Typed { ty, .. } = &hir.value else { panic!("not typed") };
    assert!(matches!(ty.value, Type::Integer));
    let mut other = HirGen::new();
    let unknown = other.gen_type(&at(9, ast::Type::Variable("num".to_string()))).unwrap();
    assert!(matches!(&unknown.value, Type::Variable(v) if v == "num"));
}

#[test]
fn next_ids_count_up() {
    let mut gen = HirGen::new();
    assert_eq!(gen.next_id(), 0);
    assert_eq!(gen.next_id(), 1);
    gen.push_span(3, Span { start: 0, end: 1 });
    assert_eq!(gen.pop_span(), Some((3, Span { start: 0, end: 1 })));
    assert_eq!(gen.pop_span(), None);
}
