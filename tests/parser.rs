use rql_parser::ast::{Infix, Query, Value};
use rql_parser::lexer::Lexer;
use rql_parser::parser::{Parser, ParserError};
use rql_parser::token::Token;

fn float(text: &str) -> Value {
    Value::FloatLiteral(text.to_string())
}

fn parse(input: &str) -> Result<Query, ParserError> {
    let mut parser = Parser::new_from_string(input.to_string());
    parser.parse_query()
}

#[test]
fn single_filter() {
    let input = "eq(foo.bar,\"a\")";
    let lexer = Lexer::new(input.to_owned());
    let mut parser = Parser::new(lexer);
    let query = parser.parse_query();
    assert!(query.is_ok());
    assert_eq!(
        query.unwrap(),
        Query::Filter(
            Infix::Eq,
            Value::Identifier("foo.bar".to_string()),
            Value::StringLiteral("a".to_string()),
        )
    );
}

#[test]
fn single_query() {
    let input = "and(eq(speed.max,100),lt(speed.min, 60.0))";
    let lexer = Lexer::new(input.to_owned());
    let mut parser = Parser::new(lexer);
    let query = parser.parse_query();
    assert!(query.is_ok());

    assert_eq!(
        query.unwrap(),
        Query::And(vec![
            Query::Filter(
                Infix::Eq,
                Value::Identifier("speed.max".to_string()),
                Value::IntegerLiteral(100),
            ),
            Query::Filter(
                Infix::Lt,
                Value::Identifier("speed.min".to_string()),
                float("60.0"),
            )
        ],)
    );
    assert_eq!("60.0".parse::<f64>().unwrap(), 60.0);
}

#[test]
fn nest_and_query() {
    let input = "and(and(eq(speed.max,100),lt(speed.min, 60.0)),eq(name,\"test\"))";
    let lexer = Lexer::new(input.to_owned());
    let mut parser = Parser::new(lexer);
    let query = parser.parse_query();
    assert!(query.is_ok());
    assert_eq!(
        query.unwrap(),
        Query::And(vec![
            Query::And(vec![
                Query::Filter(
                    Infix::Eq,
                    Value::Identifier("speed.max".to_string()),
                    Value::IntegerLiteral(100),
                ),
                Query::Filter(
                    Infix::Lt,
                    Value::Identifier("speed.min".to_string()),
                    float("60.0"),
                ),
            ]),
            Query::Filter(
                Infix::Eq,
                Value::Identifier("name".to_string()),
                Value::StringLiteral("test".to_string()),
            )
        ],)
    );
}

#[test]
fn nest_mixed_query() {
    let input = "and(or(eq(speed.max,100),lt(speed.min, 60.0)),eq(name,\"test\"))";
    let lexer = Lexer::new(input.to_owned());
    let mut parser = Parser::new(lexer);
    let query = parser.parse_query();
    assert!(query.is_ok());
    assert_eq!(
        query.unwrap(),
        Query::And(vec![
            Query::Or(vec![
                Query::Filter(
                    Infix::Eq,
                    Value::Identifier("speed.max".to_string()),
                    Value::IntegerLiteral(100),
                ),
                Query::Filter(
                    Infix::Lt,
                    Value::Identifier("speed.min".to_string()),
                    float("60.0"),
                ),
            ]),
            Query::Filter(
                Infix::Eq,
                Value::Identifier("name".to_string()),
                Value::StringLiteral("test".to_string()),
            )
        ])
    );
}

#[test]
fn nest_mixed_query2() {
    let input = "or(and(eq(foo,100),lt(bar, 60.0)),eq(baz,\"test\"))";
    let lexer = Lexer::new(input.to_owned());
    let mut parser = Parser::new(lexer);
    let query = parser.parse_query();
    assert!(query.is_ok());
    assert_eq!(
        query.unwrap(),
        Query::Or(vec![
            Query::And(vec![
                Query::Filter(
                    Infix::Eq,
                    Value::Identifier("foo".to_string()),
                    Value::IntegerLiteral(100),
                ),
                Query::Filter(
                    Infix::Lt,
                    Value::Identifier("bar".to_string()),
                    float("60.0"),
                )
            ]),
            Query::Filter(
                Infix::Eq,
                Value::Identifier("baz".to_string()),
                Value::StringLiteral("test".to_string()),
            ),
        ])
    );
}

#[test]
fn empty_and() {
    assert_eq!(parse("and()").unwrap(), Query::And(vec![]));
    assert_eq!(parse("or( )").unwrap(), Query::Or(vec![]));
}

#[test]
fn missing_comma() {
    let r = parse("eq(foo)");
    assert!(matches!(r, Err(ParserError::ExpectedComma(Token::Rparen))), "{:?}", r);
}

#[test]
fn missing_value() {
    let r = parse("eq(foo,)");
    assert!(matches!(r, Err(ParserError::ExpectedValueToken(Token::Rparen))), "{:?}", r);
}

#[test]
fn missing_rparen() {
    let r = parse("eq(foo,\"a\"");
    assert!(matches!(r, Err(ParserError::ExpectedRparen(Token::Eof))), "{:?}", r);
}

#[test]
fn missing_lparen() {
    let r = parse("and eq(a,1)");
    assert!(matches!(r, Err(ParserError::ExpectedLparen(Token::Eq))), "{:?}", r);
    let r = parse("ne,");
    assert!(matches!(r, Err(ParserError::ExpectedLparen(Token::Comma))), "{:?}", r);
}

#[test]
fn missing_identifier() {
    let r = parse("gt(5,1)");
    assert!(matches!(r, Err(ParserError::ExpectedIdentifierToken(Token::Int(ref d))) if d == "5"), "{:?}", r);
}

#[test]
fn non_comparator_is_rejected() {
    let r = parse("sort(+name)");
    assert!(matches!(r, Err(ParserError::ExpectedFilterToken(Token::Sort))), "{:?}", r);
    let r = parse("");
    assert!(matches!(r, Err(ParserError::ExpectedFilterToken(Token::Eof))), "{:?}", r);
    let r = parse("and(eq(a,1),*)");
    assert!(matches!(r, Err(ParserError::ExpectedFilterToken(Token::Illegal))), "{:?}", r);
}

#[test]
fn integer_overflow_is_reported() {
    let r = parse("eq(a,9223372036854775808)");
    assert!(matches!(r, Err(ParserError::ParseInt(ref d)) if d == "9223372036854775808"), "{:?}", r);
    assert_eq!(
        parse("eq(a,9223372036854775807)").unwrap(),
        Query::Filter(
            Infix::Eq,
            Value::Identifier("a".to_string()),
            Value::IntegerLiteral(i64::MAX),
        )
    );
}

#[test]
fn every_literal_kind() {
    let cases = [
        ("ne(a,b.c)", Infix::NotEq, Value::Identifier("b.c".to_string())),
        ("le(a,0)", Infix::Le, Value::IntegerLiteral(0)),
        ("ge(a,1.25)", Infix::Ge, float("1.25")),
        ("gt(a,\"\")", Infix::Gt, Value::StringLiteral(String::new())),
        ("eq(a,true)", Infix::Eq, Value::Boolean(true)),
        ("lt(a,false)", Infix::Lt, Value::Boolean(false)),
    ];
    for (input, op, v) in cases {
        assert_eq!(
            parse(input).unwrap(),
            Query::Filter(op, Value::Identifier("a".to_string()), v),
            "{}",
            input
        );
    }
}

#[test]
fn commas_between_queries_are_optional() {
    let a = Query::Filter(Infix::Eq, Value::Identifier("a".to_string()), Value::IntegerLiteral(1));
    let b = Query::Filter(Infix::Eq, Value::Identifier("b".to_string()), Value::IntegerLiteral(2));
    let expected = Query::And(vec![a, b]);
    assert_eq!(parse("and(eq(a,1) eq(b,2))").unwrap(), expected);
    assert_eq!(parse("and(eq(a,1),eq(b,2),)").unwrap(), expected);
}

#[test]
fn unclosed_list_fails() {
    let r = parse("or(eq(a,1),");
    assert!(matches!(r, Err(ParserError::ExpectedFilterToken(Token::Eof))), "{:?}", r);
}

#[test]
fn parser_accessors() {
    let parser = Parser::new_from_string("eq(a,1)".to_string());
    assert_eq!(parser.input(), "eq(a,1)");
    assert!(parser.errors().is_empty());
    assert!(Query::Empty.is_none());
    assert!(!Query::And(vec![]).is_none());
}
