use deskc::lexer::Token::{
    Alias, Apply, Arrow, ArrayBegin, ArrayEnd, Attribute, Brand, Brands, Card, Comma, Comment, Divide, Dot,
    Export, FromHere, Handle, Hole, Ident, Import, In, Include, Infer, Int, Lambda, Let, NumberType, Perform,
    Product, Reference, SetBegin, SetEnd, StringType, Sum, This, Trait, Type, TypeAnnotation, A,
};
use deskc::lexer::{ident, lexer, scan, LexerError, Token};

#[test]
fn all_syntax() {
    let tokens = lexer(
        r#"
            (defines < 'number -> @incremented 'number >)
            $ \x -> ^ \ 'number, 'number -> @added 'number >
                1, x (1 + x): @incremented 'number > ~
            (increments a value which is padded later)
            \ 'number -> @incremented 'number > ?.
            "#,
    )
    .into_iter()
    .map(|(token, _)| token)
    .collect::<Vec<_>>();

    assert_eq!(
        tokens,
        vec![
            Comment("(defines < 'number -> @incremented 'number >)".into()),
            Let,
            Lambda,
            Ident("x".into()),
            Arrow,
            FromHere,
            Lambda,
            NumberType,
            Comma,
            NumberType,
            Arrow,
            Brand("added".into()),
            NumberType,
            Apply,
            Int(1),
            Comma,
            Ident("x".into()),
            Comment("(1 + x)".into()),
            TypeAnnotation,
            Brand("incremented".into()),
            NumberType,
            Apply,
            In,
            Comment("(increments a value which is padded later)".into()),
            Lambda,
            NumberType,
            Arrow,
            Brand("incremented".into()),
            NumberType,
            Apply,
            Hole,
            Dot,
        ]
    )
}

#[test]
fn lib_ident_with_spaces() {
    assert_eq!(
        lexer(" the\t\nnumber  of apples "),
        vec![(Token::Ident("the number of apples".into()), 1..23)]
    );
}

#[test]
fn lib_ident_utf8() {
    assert_eq!(lexer("あ-　a0"), vec![(Token::Ident("あ- a0".into()), 0..5)]);
}

#[test]
fn brand_with_spaces() {
    assert_eq!(lexer("@あ-　a0"), vec![(Token::Brand("あ- a0".into()), 0..6)]);
}

#[test]
fn lib_string_with_escape() {
    assert_eq!(
        lexer(
            r#"
            "\\\n\""
            "#
        ),
        vec![(Token::Str("\\\n\"".into()), 13..21)]
    );
}

#[test]
fn semicolon_to_comma_dot() {
    assert_eq!(
        scan("?;?").unwrap(),
        vec![
            (Token::Hole, 0..1),
            (Token::Dot, 1..2),
            (Token::Comma, 1..2),
            (Token::Hole, 2..3)
        ]
    );
}

#[test]
fn integers_and_minus() {
    assert_eq!(
        lexer("-12 0 07 - -> => <! -x"),
        vec![
            (Token::Int(-12), 0..3),
            (Token::Int(0), 4..5),
            (Token::Int(0), 6..7),
            (Token::Int(7), 7..8),
            (Token::Minus, 9..10),
            (Token::Arrow, 11..13),
            (Token::EArrow, 14..16),
            (Token::Continue, 17..19),
            (Token::Minus, 20..21),
            (Token::Ident("x".into()), 21..22),
        ]
    );
}

#[test]
fn integer_bounds() {
    assert_eq!(
        lexer("-9223372036854775808 9223372036854775807"),
        vec![(Token::Int(i64::MIN), 0..20), (Token::Int(i64::MAX), 21..40)]
    );
}

#[test]
fn keywords() {
    let tokens = lexer("'module 'import 'export 'number 'string 'alias 'brand 'type 'this 'handle 'card 'a")
        .into_iter()
        .map(|(token, _)| token)
        .collect::<Vec<_>>();
    assert_eq!(
        tokens,
        vec![Include, Import, Export, NumberType, StringType, Alias, Brands, Type, This, Handle, Card, A]
    );
}

#[test]
fn unknown_keyword_stops() {
    assert_eq!(lexer("? 'other ?"), vec![(Token::Hole, 0..1)]);
    assert_eq!(scan("? 'other ?"), Err(LexerError { offset: 2 }));
}

#[test]
fn symbols() {
    let tokens = lexer("$~/!:%#^+*,.>[]{}?_\\&")
        .into_iter()
        .map(|(token, _)| token)
        .collect::<Vec<_>>();
    assert_eq!(
        tokens,
        vec![
            Let, In, Divide, Perform, TypeAnnotation, Trait, Attribute, FromHere, Sum, Product, Comma, Dot,
            Apply, ArrayBegin, ArrayEnd, SetBegin, SetEnd, Hole, Infer, Lambda, Reference
        ]
    );
}

#[test]
fn uuid_token() {
    assert_eq!(
        lexer("'uuid 67e55044-10b1-426f-9247-bb680e5fe0c8"),
        vec![(Token::Uuid(0x67e55044_10b1_426f_9247_bb680e5fe0c8), 0..42)]
    );
    assert_eq!(
        lexer("'uuid\n67E5504410B1426F9247BB680E5FE0C8 ?"),
        vec![(Token::Uuid(0x67e55044_10b1_426f_9247_bb680e5fe0c8), 0..38), (Token::Hole, 39..40)]
    );
}

#[test]
fn uuid_with_too_few_digits_is_no_token() {
    assert_eq!(lexer("'uuid abcd-ef01"), vec![]);
    assert_eq!(scan("'uuid abcd-ef01"), Err(LexerError { offset: 0 }));
}

#[test]
fn nested_comment() {
    assert_eq!(
        lexer("(a (b) c)x"),
        vec![(Token::Comment("(a (b) c)".into()), 0..9), (Token::Ident("x".into()), 9..10)]
    );
    assert_eq!(scan("(a (b c)"), Err(LexerError { offset: 0 }));
}

#[test]
fn string_escapes_read_twice() {
    assert_eq!(lexer(r#""a\tb""#), vec![(Token::Str("a\tb".into()), 0..6)]);
    assert_eq!(lexer(r#""\\n""#), vec![(Token::Str("\n".into()), 0..5)]);
    assert_eq!(scan(r#""\q""#), Err(LexerError { offset: 0 }));
}

#[test]
fn white_space_only_is_an_error() {
    assert_eq!(lexer("   "), vec![]);
    assert_eq!(scan("   "), Err(LexerError { offset: 0 }));
    assert_eq!(scan(""), Ok(vec![]));
}

#[test]
fn ident_words() {
    assert_eq!(ident("a b\u{3000}c0-@ ,"), Some(("a b c0-@".to_string(), 8)));
    assert_eq!(ident("0a"), None);
}
