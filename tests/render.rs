use rql_parser::ast::{Infix, Prefix, Value};
use rql_parser::token::Token;

#[test]
fn infix_symbols() {
    assert_eq!(Infix::Eq.symbol(), "=");
    assert_eq!(Infix::NotEq.symbol(), "!=");
    assert_eq!(Infix::Le.symbol(), "<=");
    assert_eq!(Infix::Ge.symbol(), ">=");
    assert_eq!(Infix::Lt.symbol(), "<");
    assert_eq!(Infix::Gt.symbol(), ">");
}

#[test]
fn prefix_names() {
    assert_eq!(Prefix::Plus.name(), "Plus");
    assert_eq!(Prefix::Minus.name(), "Minus");
}

#[test]
fn value_texts() {
    assert_eq!(Value::StringLiteral("a b".to_string()).to_text(), "\"a b\"");
    assert_eq!(Value::Identifier("foo.bar".to_string()).to_text(), "foo.bar");
    assert_eq!(Value::IntegerLiteral(-1203).to_text(), "-1203");
    assert_eq!(Value::IntegerLiteral(0).to_text(), "0");
    assert_eq!(Value::IntegerLiteral(i64::MIN).to_text(), "-9223372036854775808");
    assert_eq!(Value::FloatLiteral("60.0".to_string()).to_text(), "60.0");
    assert_eq!(Value::Boolean(true).to_text(), "true");
    assert_eq!(Value::Boolean(false).to_text(), "false");
}

#[test]
fn token_texts() {
    assert_eq!(Token::Illegal.to_text(), "ILLEGAL");
    assert_eq!(Token::Eof.to_text(), "EOF");
    assert_eq!(Token::Str("x".to_string()).to_text(), "\"x\"");
    assert_eq!(Token::Ident("x.y".to_string()).to_text(), "x.y");
    assert_eq!(Token::Int("12".to_string()).to_text(), "12");
    assert_eq!(Token::Float("1.5".to_string()).to_text(), "1.5");
    assert_eq!(Token::NotEq.to_text(), "ne");
    assert_eq!(Token::Lparen.to_text(), "(");
    assert_eq!(Token::And.to_text(), "and");
    assert_eq!(Token::Sort.to_text(), "not implemented");
}

#[test]
fn duplicate_keeps_the_token() {
    let t = Token::Str("q".to_string());
    assert_eq!(t.duplicate(), t);
    assert_eq!(Token::Gt.duplicate(), Token::Gt);
}
