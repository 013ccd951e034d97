use rustytune::ini::lex::{parse_shape, split_kv, tokenize, Shape, Token};
use rustytune::ini::Error;

#[test]
fn splits_on_top_level_commas_only() {
    let toks = tokenize(
        r#"scalar, U08, 38, { bitStringValue( idleUnits, iacAlgorithm ) }, { a ? 1 : 2 }, 0.000"#,
        1,
    )
    .unwrap();
    assert_eq!(toks.len(), 6);
    assert_eq!(toks[0], Token::Bare("scalar".into()));
    assert_eq!(
        toks[3],
        Token::Expr("bitStringValue( idleUnits, iacAlgorithm )".into())
    );
}

#[test]
fn splits_trailing_expression_without_comma() {
    let toks = tokenize(r#""Trigger edge", TrigEdge { TrigPattern != 4 }"#, 1).unwrap();
    assert_eq!(
        toks,
        vec![
            Token::Str("Trigger edge".into()),
            Token::Bare("TrigEdge".into()),
            Token::Expr("TrigPattern != 4".into()),
        ]
    );
}

#[test]
fn expression_after_comma_remains_one_token() {
    let toks = tokenize(r#"name, { enabled && mode == 1 }"#, 1).unwrap();
    assert_eq!(
        toks,
        vec![
            Token::Bare("name".into()),
            Token::Expr("enabled && mode == 1".into()),
        ]
    );
}

#[test]
fn quoted_strings_keep_commas_and_escapes() {
    let toks = tokenize(r#""a, b", "r\$tsCanId\x30%2o%2c""#, 1).unwrap();
    assert_eq!(toks[0], Token::Str("a, b".into()));
    assert_eq!(toks[1], Token::Str(r"r\$tsCanId\x30%2o%2c".into()));
}

#[test]
fn kv_split_ignores_equals_in_strings() {
    let (k, v) = split_kv(r#"indicator = { a == 1 }, "x""#).unwrap();
    assert_eq!(k, "indicator");
    assert_eq!(v, r#"{ a == 1 }, "x""#);
}

#[test]
fn kv_split_quoted_equals_and_missing() {
    let (k, v) = split_kv(r#""a=b" = c"#).unwrap();
    assert_eq!(k, r#""a=b""#);
    assert_eq!(v, "c");
    assert!(split_kv("no assignment here").is_none());
    assert!(split_kv(r#""x = y""#).is_none());
}

#[test]
fn shapes() {
    assert_eq!(parse_shape("[0:3]", 1).unwrap(), Shape::Bits { lo: 0, hi: 3 });
    assert_eq!(parse_shape("[ 4]", 1).unwrap(), Shape::Array1D(4));
    assert_eq!(parse_shape("[16x16]", 1).unwrap(), Shape::Array2D { x: 16, y: 16 });
}

#[test]
fn malformed_shapes() {
    assert!(matches!(parse_shape("4", 7), Err(Error::Parse(7, _))));
    assert!(matches!(parse_shape("[0:300]", 2), Err(Error::Parse(2, _))));
    assert!(matches!(parse_shape("[]", 3), Err(Error::Parse(3, _))));
    assert!(matches!(parse_shape("[70000]", 3), Err(Error::Parse(3, _))));
    assert_eq!(parse_shape(" [ +8 x 2 ] ", 1).unwrap(), Shape::Array2D { x: 8, y: 2 });
}

#[test]
fn element_counts() {
    assert_eq!(Shape::Bits { lo: 0, hi: 3 }.element_count(), 1);
    assert_eq!(Shape::Array1D(12).element_count(), 12);
    assert_eq!(Shape::Array2D { x: 16, y: 16 }.element_count(), 256);
    assert_eq!(Shape::Array2D { x: 65535, y: 65535 }.element_count(), 4294836225);
}

#[test]
fn tokenize_errors_and_empty() {
    assert!(matches!(tokenize(r#""open"#, 5), Err(Error::Parse(5, _))));
    assert!(matches!(tokenize("{ a", 6), Err(Error::Parse(6, _))));
    assert!(matches!(tokenize("a }", 7), Err(Error::Parse(7, _))));
    assert!(matches!(tokenize(r#""a" b"#, 8), Err(Error::Parse(8, _))));
    assert_eq!(tokenize("   ", 1).unwrap(), vec![]);
    assert_eq!(
        tokenize("a,,b", 1).unwrap(),
        vec![Token::Bare("a".into()), Token::Bare("".into()), Token::Bare("b".into())]
    );
}

#[test]
fn token_text() {
    assert_eq!(Token::Str("x y".into()).as_str(), "x y");
    assert_eq!(Token::Expr("a+1".into()).as_str(), "a+1");
    assert_eq!(Token::Bare("U08".into()).as_str(), "U08");
}
