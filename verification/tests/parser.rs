use potenv::ast::{Expression, Operator};
use potenv::parser::{parse, ParseError, Parser};
use potenv::pos::Position;
use potenv::token::{Token, TokenKind};

fn tok(kind: TokenKind, value: &str) -> Token {
    Token::new(kind, value.to_string(), Position::new(0, 0))
}

#[test]
fn parse_empty_stream_is_eof() {
    let mut p = Parser::new(vec![]);
    assert!(matches!(p.parse(), Err(ParseError::Eof)));
}

#[test]
fn parse_unexpected_at_top_level() {
    let mut p = Parser::new(vec![tok(TokenKind::Characters, "foo")]);
    assert!(matches!(p.parse(), Err(ParseError::Unexpected(_))));
}

#[test]
fn parse_eof_in_value() {
    let mut p = Parser::new(vec![tok(TokenKind::Assign, "foo")]);
    assert!(matches!(p.parse(), Err(ParseError::Eof)));
}

#[test]
fn parse_unexpected_in_value() {
    let mut p = Parser::new(vec![
        tok(TokenKind::Assign, "foo"),
        tok(TokenKind::ExpansionOperator, "bar"),
    ]);
    assert!(matches!(p.parse(), Err(ParseError::Unexpected(_))));
}

#[test]
fn parse_eof_in_operator() {
    let mut p = Parser::new(vec![
        tok(TokenKind::Assign, "foo"),
        tok(TokenKind::StartExpansion, "bar"),
    ]);
    assert!(matches!(p.parse(), Err(ParseError::Eof)));
}

#[test]
fn parse_unexpected_in_operator() {
    let mut p = Parser::new(vec![
        tok(TokenKind::Assign, "foo"),
        tok(TokenKind::StartExpansion, "bar"),
        tok(TokenKind::Assign, "baz"),
    ]);
    assert!(matches!(p.parse(), Err(ParseError::Unexpected(_))));
}

#[test]
fn parse_unknown_operator() {
    let mut p = Parser::new(vec![
        tok(TokenKind::Assign, "foo"),
        tok(TokenKind::StartExpansion, "bar"),
        tok(TokenKind::ExpansionOperator, "<lol>"),
        tok(TokenKind::EndExpansion, ""),
    ]);
    assert!(matches!(p.parse(), Err(ParseError::UnknownOperator(op)) if op == "<lol>"));
}

#[test]
fn parse_eof_in_expansion() {
    let mut p = Parser::new(vec![
        tok(TokenKind::Assign, "foo"),
        tok(TokenKind::StartExpansion, "bar"),
        tok(TokenKind::ExpansionOperator, "-"),
    ]);
    assert!(matches!(p.parse(), Err(ParseError::Eof)));
}

#[test]
fn parse_unexpected_in_expansion() {
    let mut p = Parser::new(vec![
        tok(TokenKind::Assign, "foo"),
        tok(TokenKind::StartExpansion, "bar"),
        tok(TokenKind::ExpansionOperator, "-"),
        tok(TokenKind::Assign, "baz"),
    ]);
    assert!(matches!(p.parse(), Err(ParseError::Unexpected(_))));
}

#[test]
fn parse_simple_expansion_is_if_unset_with_empty_rhs() {
    // `$FOO` is exactly `${FOO-}` at evaluation time.
    let ast = parse("a=$FOO", None).unwrap();
    assert_eq!(1, ast.len());
    assert_eq!("a", ast[0].name);
    assert_eq!(1, ast[0].value.len());
    match &ast[0].value[0] {
        Expression::Expansion(x) => {
            assert_eq!("FOO", x.name);
            assert_eq!(Operator::IfUnset, x.operator);
            assert!(x.rhs.is_empty());
        },
        other => panic!("expected an expansion, got {:?}", other),
    }
}

#[test]
fn parse_nested_expansion() {
    let ast = parse("a=${x:-${y:=z}}", None).unwrap();
    assert_eq!(1, ast.len());
    match &ast[0].value[0] {
        Expression::Expansion(x) => {
            assert_eq!("x", x.name);
            assert_eq!(Operator::IfUnsetOrNull, x.operator);
            assert_eq!(1, x.rhs.len());
            match &x.rhs[0] {
                Expression::Expansion(y) => {
                    assert_eq!("y", y.name);
                    assert_eq!(Operator::AssignIfUnsetOrNull, y.operator);
                    assert_eq!(1, y.rhs.len());
                    assert!(matches!(&y.rhs[0], Expression::Characters(c) if c == "z"));
                },
                other => panic!("expected a nested expansion, got {:?}", other),
            }
        },
        other => panic!("expected an expansion, got {:?}", other),
    }
}

#[test]
fn parse_mixed_value_pieces() {
    let ast = parse("a=x$b${c}y", None).unwrap();
    assert_eq!(1, ast.len());
    let v = &ast[0].value;
    assert_eq!(4, v.len());
    assert!(matches!(&v[0], Expression::Characters(c) if c == "x"));
    assert!(matches!(&v[1], Expression::Expansion(x) if x.name == "b"));
    assert!(matches!(&v[2], Expression::Expansion(x) if x.name == "c"));
    assert!(matches!(&v[3], Expression::Characters(c) if c == "y"));
}
