use deskc::amir::LinkName;
use deskc::ast::{Span, WithSpan};
use deskc::lexer::{scan, Token};
use deskc::parser::{expr, parse, ty, ParserError};
use deskc::syntax::{CommentPosition, Effect, EffectExpr, Expr, Handler, Literal, MatchCase, Type};

/// The debug text of a node with every identifier and span taken out, so
/// that trees compare by their shape and values alone.
fn shape<T: std::fmt::Debug>(x: &T) -> String {
    let text = format!("{:?}", x);
    let mut out = String::new();
    let mut rest: &str = &text;
    loop {
        let id = rest.find("id: ");
        let span = rest.find("span: Span {");
        let next = match (id, span) {
            (Some(a), Some(b)) => a.min(b),
            (Some(a), None) => a,
            (None, Some(b)) => b,
            (None, None) => {
                out.push_str(rest);
                break;
            }
        };
        out.push_str(&rest[..next]);
        let tail = &rest[next..];
        if tail.starts_with("id: ") {
            let after = &tail[4..];
            let digits = after.chars().take_while(|c| c.is_ascii_digit()).count();
            rest = &after[digits..];
            if rest.starts_with(", ") {
                rest = &rest[2..];
            }
        } else {
            let close = tail.find('}').unwrap();
            rest = &tail[close + 1..];
        }
    }
    out
}

fn ds<T>(value: T) -> WithSpan<T> {
    WithSpan { id: 0, value, span: Span { start: 0, end: 0 } }
}

fn parse_expr(input: &str) -> Result<WithSpan<Expr>, ParserError> {
    parse(scan(input).unwrap())
}

fn parse_type(input: &str) -> Option<WithSpan<Type>> {
    let tokens = scan(input).unwrap();
    match ty::parser(&tokens) {
        Some((t, n)) if n == tokens.len() => Some(t),
        _ => None,
    }
}

fn same<T: std::fmt::Debug>(a: &T, b: &T) {
    assert_eq!(shape(a), shape(b));
}

#[test]
fn expr_parse_literal_int() {
    same(&parse_expr("-12").unwrap().value, &Expr::Literal(Literal::Integer(-12)));
}

#[test]
fn expr_parse_literal_rational() {
    same(&parse_expr("1/2").unwrap().value, &Expr::Literal(Literal::Rational(1, 2)));
}

#[test]
fn expr_parse_literal_string() {
    same(&parse_expr(r#""abc""#).unwrap().value, &Expr::Literal(Literal::String("abc".into())));
}

#[test]
fn expr_parse_let() {
    same(
        &parse_expr("$ 3: 'number ~ ?").unwrap().value,
        &Expr::Let {
            ty: ds(Type::Number),
            definition: Box::new(ds(Expr::Literal(Literal::Integer(3)))),
            body: Box::new(ds(Expr::Hole)),
        },
    );
}

#[test]
fn expr_parse_perform() {
    same(
        &parse_expr("! ? => 'string").unwrap().value,
        &Expr::Perform { input: Box::new(ds(Expr::Hole)), output: ds(Type::String) },
    );
}

#[test]
fn expr_parse_handle() {
    let trait_ = parse_expr(r#"'handle ? ~ 'number => 'string -> 3"#).unwrap().value;
    same(
        &trait_,
        &Expr::Handle {
            expr: Box::new(ds(Expr::Hole)),
            handlers: vec![Handler {
                input: ds(Type::Number),
                output: ds(Type::String),
                handler: ds(Expr::Literal(Literal::Integer(3))),
            }],
        },
    );
}

#[test]
fn expr_parse_call() {
    same(
        &parse_expr("> 'a add ~ 1, 2.").unwrap().value,
        &Expr::Apply {
            function: ds(Type::Variable("add".into())),
            link_name: LinkName::Unnamed,
            arguments: vec![ds(Expr::Literal(Literal::Integer(1))), ds(Expr::Literal(Literal::Integer(2)))],
        },
    );
}

#[test]
fn expr_parse_reference() {
    same(
        &parse_expr("& 'a x").unwrap().value,
        &Expr::Apply { function: ds(Type::Variable("x".into())), link_name: LinkName::Unnamed, arguments: vec![] },
    );
}

#[test]
fn expr_parse_product() {
    same(
        &parse_expr("* 1, ?").unwrap().value,
        &Expr::Product(vec![ds(Expr::Literal(Literal::Integer(1))), ds(Expr::Hole)]),
    );
}

#[test]
fn expr_parse_function() {
    same(
        &parse_expr(r#"\ 'number, _ -> ?"#).unwrap().value,
        &Expr::Function { parameters: vec![ds(Type::Number), ds(Type::Infer)], body: Box::new(ds(Expr::Hole)) },
    );
}

#[test]
fn expr_parse_array() {
    same(
        &parse_expr("[1, ?, ?]").unwrap().value,
        &Expr::Vector(vec![ds(Expr::Literal(Literal::Integer(1))), ds(Expr::Hole), ds(Expr::Hole)]),
    );
}

#[test]
fn expr_parse_set() {
    same(
        &parse_expr("{1, ?, ?}").unwrap().value,
        &Expr::SetOf(vec![ds(Expr::Literal(Literal::Integer(1))), ds(Expr::Hole), ds(Expr::Hole)]),
    );
}

#[test]
fn expr_parse_type_annotation() {
    same(
        &parse_expr("^?: 'number").unwrap().value,
        &Expr::Typed { item: Box::new(ds(Expr::Hole)), ty: ds(Type::Number) },
    );
}

#[test]
fn expr_parse_attribute() {
    same(
        &parse_expr("# 3 ~ ?").unwrap().value,
        &Expr::Attribute { attr: Box::new(ds(Expr::Literal(Literal::Integer(3)))), item: Box::new(ds(Expr::Hole)) },
    );
}

#[test]
fn expr_parse_brand() {
    same(
        &parse_expr("'brand a, b. ~ ?").unwrap().value,
        &Expr::Brand { brands: vec!["a".into(), "b".into()], item: Box::new(ds(Expr::Hole)) },
    );
}

#[test]
fn expr_parse_match() {
    same(
        &parse_expr(
            r#"
            + ? ~
            'number -> "number",
            'string -> "string".
            "#,
        )
        .unwrap()
        .value,
        &Expr::Match {
            of: Box::new(ds(Expr::Hole)),
            cases: vec![
                MatchCase { ty: ds(Type::Number), expr: ds(Expr::Literal(Literal::String("number".into()))) },
                MatchCase { ty: ds(Type::String), expr: ds(Expr::Literal(Literal::String("string".into()))) },
            ],
        },
    );
}

#[test]
fn parse_match_without_in() {
    same(
        &parse_expr(
            r#"
            + & 'a x
            'number -> "number",
            'string -> "string".
            "#,
        )
        .unwrap()
        .value,
        &Expr::Match {
            of: Box::new(ds(Expr::Apply {
                function: ds(Type::Variable("x".into())),
                link_name: LinkName::Unnamed,
                arguments: vec![],
            })),
            cases: vec![
                MatchCase { ty: ds(Type::Number), expr: ds(Expr::Literal(Literal::String("number".into()))) },
                MatchCase { ty: ds(Type::String), expr: ds(Expr::Literal(Literal::String("string".into()))) },
            ],
        },
    );
}

#[test]
fn expr_parse_label() {
    same(
        &parse_expr("@true *").unwrap().value,
        &Expr::Label { label: "true".into(), item: Box::new(ds(Expr::Product(vec![]))) },
    );
}

#[test]
fn expr_parse_comment() {
    same(
        &parse_expr("(a)*(b)").unwrap().value,
        &Expr::Comment {
            position: CommentPosition::Prefix,
            text: "(a)".into(),
            item: Box::new(ds(Expr::Comment {
                position: CommentPosition::Suffix,
                text: "(b)".into(),
                item: Box::new(ds(Expr::Product(vec![]))),
            })),
        },
    );
}

#[test]
fn test_parser() {
    same(&parse_type("'number").unwrap().value, &Type::Number);
}

#[test]
fn ty_parse_trait() {
    let trait_ = parse_type("% 'number, _.").unwrap().value;
    if let Type::Trait(trait_) = trait_ {
        assert_eq!(trait_.len(), 2);
        same(&trait_[0].value, &Type::Number);
        same(&trait_[1].value, &Type::Infer);
    } else {
        panic!("Expected trait");
    }
}

#[test]
fn ty_parse_variable() {
    same(&parse_type("'a something").unwrap().value, &Type::Variable("something".into()));
}

#[test]
fn ty_parse_single_token() {
    same(&parse_type("_").unwrap().value, &Type::Infer);
    same(&parse_type("'this").unwrap().value, &Type::This);
}

#[test]
fn ty_parse_product_and_sum() {
    same(
        &parse_type("* + 'number, _., *").unwrap().value,
        &Type::Product(vec![
            ds(Type::Sum(vec![ds(Type::Number), ds(Type::Infer)])),
            ds(Type::Product(vec![])),
        ]),
    );
}

#[test]
fn ty_parse_function() {
    same(
        &parse_type(r#"\ 'number, 'number -> _"#).unwrap().value,
        &Type::Function { parameters: vec![ds(Type::Number), ds(Type::Number)], body: Box::new(ds(Type::Infer)) },
    );
}

#[test]
fn ty_parse_array() {
    same(&parse_type("['number]").unwrap().value, &Type::Vector(Box::new(ds(Type::Number))));
}

#[test]
fn ty_parse_set() {
    same(&parse_type("{'number}").unwrap().value, &Type::SetOf(Box::new(ds(Type::Number))));
}

#[test]
fn ty_parse_bound() {
    same(
        &parse_type("a: 'a bound").unwrap().value,
        &Type::BoundedVariable { identifier: "a".into(), bound: Box::new(ds(Type::Variable("bound".into()))) },
    );
}

#[test]
fn ty_parse_effectful() {
    same(
        &parse_type("! result + {'number => 'string}, - >a _, {'string => 'number}").unwrap().value,
        &Type::Effectful {
            ty: Box::new(ds(Type::Variable("result".into()))),
            effects: ds(EffectExpr::Add(vec![
                ds(EffectExpr::Effects(vec![ds(Effect { input: ds(Type::Number), output: ds(Type::String) })])),
                ds(EffectExpr::Sub {
                    minuend: Box::new(ds(EffectExpr::Apply {
                        function: Box::new(ds(Type::Variable("a".into()))),
                        arguments: vec![ds(Type::Infer)],
                    })),
                    subtrahend: Box::new(ds(EffectExpr::Effects(vec![ds(Effect {
                        input: ds(Type::String),
                        output: ds(Type::Number),
                    })]))),
                }),
            ])),
        },
    );
}

#[test]
fn ty_parse_brand() {
    same(
        &parse_type("@added 'number").unwrap().value,
        &Type::Brand { brand: "added".into(), item: Box::new(ds(Type::Number)) },
    );
}

#[test]
fn ty_parse_attribute() {
    same(
        &parse_type("#1 ~ 'number").unwrap().value,
        &Type::Attribute { attr: Box::new(ds(Expr::Literal(Literal::Integer(1)))), ty: Box::new(ds(Type::Number)) },
    );
}

#[test]
fn ty_parse_let() {
    same(
        &parse_type("$ x ~ x").unwrap().value,
        &Type::Let { variable: "x".into(), body: Box::new(ds(Type::Variable("x".into()))) },
    );
}

#[test]
fn ty_parse_comment() {
    same(
        &parse_type("(a)*(b)").unwrap().value,
        &Type::Comment {
            position: CommentPosition::Prefix,
            text: "(a)".into(),
            item: Box::new(ds(Type::Comment {
                position: CommentPosition::Suffix,
                text: "(b)".into(),
                item: Box::new(ds(Type::Product(vec![]))),
            })),
        },
    );
}

#[test]
fn parse_reports_leftover_tokens() {
    // `?` takes one token; the second is left over.
    assert_eq!(parse_expr("? ?").unwrap_err(), ParserError { position: 1 });
    // Nothing starts an expression with `]`.
    assert_eq!(parse_expr("]").unwrap_err(), ParserError { position: 0 });
}

#[test]
fn parser_takes_a_prefix() {
    let tokens = scan("? ?").unwrap();
    let (x, n) = expr::parser(&tokens).unwrap();
    assert_eq!(n, 1);
    same(&x.value, &Expr::Hole);
}

#[test]
fn spans_cover_the_tokens() {
    let tokens = scan("* 1, ?").unwrap();
    let (x, n) = expr::parser(&tokens).unwrap();
    assert_eq!(n, 4);
    assert_eq!(x.span, Span { start: 0, end: 6 });
    if let Expr::Product(items) = &x.value {
        assert_eq!(items[0].span, Span { start: 2, end: 3 });
        assert_eq!(items[1].span, Span { start: 5, end: 6 });
    } else {
        panic!("expected a product");
    }
}

#[test]
fn let_without_type_infers_it() {
    let x = parse_expr("$ 1 ~ ?").unwrap();
    if let Expr::Let { ty, .. } = &x.value {
        same(&ty.value, &Type::Infer);
        assert_eq!(ty.span, Span { start: 0, end: 0 });
    } else {
        panic!("expected a let");
    }
}

#[test]
fn rational_needs_a_denominator() {
    let tokens = scan("1 /").unwrap();
    let (x, n) = expr::parser(&tokens).unwrap();
    assert_eq!(n, 1);
    same(&x.value, &Expr::Literal(Literal::Integer(1)));
}

#[test]
fn card_with_next() {
    let tokens = vec![
        (Token::Card, 0..1),
        (Token::Uuid(7), 1..2),
        (Token::Hole, 2..3),
        (Token::In, 3..4),
        (Token::Product, 4..5),
    ];
    let (x, n) = expr::parser(&tokens).unwrap();
    assert_eq!(n, 5);
    same(
        &x.value,
        &Expr::Card {
            uuid: 7,
            item: Box::new(ds(Expr::Hole)),
            next: Some(Box::new(ds(Expr::Product(vec![])))),
        },
    );
}

#[test]
fn effect_parser_reads_an_effect() {
    let tokens = scan("'number => 'string ?").unwrap();
    let (e, n) = ty::effect_parser(&tokens).unwrap();
    assert_eq!(n, 3);
    same(&e.input.value, &Type::Number);
    same(&e.output.value, &Type::String);
    assert!(ty::effect_parser(&scan("'number 'string").unwrap()).is_none());
}
