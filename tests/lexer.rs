use rql_parser::lexer::Lexer;
use rql_parser::token::{lookup_ident, Token};

fn lex_all(input: &str) -> Vec<Token> {
    let mut lexer = Lexer::new(input.to_owned());
    let mut out = Vec::new();
    for _ in 0..1000 {
        let t = lexer.next_token();
        let end = t == Token::Eof;
        out.push(t);
        if end {
            break;
        }
    }
    out
}

#[test]
fn next_token() {
    let input = r#"and(eq(foo,"test"),or(gt(bar.baz,100),ge(test,60.0))"#;
    let tests = [
        Token::And,
        Token::Lparen,
        Token::Eq,
        Token::Lparen,
        Token::Ident("foo".to_string()),
        Token::Comma,
        Token::Str("test".to_string()),
        Token::Rparen,
        Token::Comma,
        Token::Or,
        Token::Lparen,
        Token::Gt,
        Token::Lparen,
        Token::Ident("bar.baz".to_string()),
        Token::Comma,
        Token::Int("100".to_string()),
        Token::Rparen,
        Token::Comma,
        Token::Ge,
        Token::Lparen,
        Token::Ident("test".to_string()),
        Token::Comma,
        Token::Float("60.0".to_string()),
        Token::Rparen,
        Token::Rparen,
    ];

    let mut lexer = Lexer::new(input.to_owned());

    for (i, expected_token) in tests.iter().enumerate() {
        let token = lexer.next_token();
        assert_eq!(&token, expected_token, "tests[{}]", i);
    }
}

#[test]
fn unterminated_string_runs_to_end() {
    assert_eq!(
        lex_all(r#"eq(x,"abc"#),
        vec![
            Token::Eq,
            Token::Lparen,
            Token::Ident("x".to_string()),
            Token::Comma,
            Token::Str("abc".to_string()),
            Token::Eof,
        ]
    );
}

#[test]
fn eof_repeats_at_end() {
    let mut lexer = Lexer::new("  ".to_owned());
    assert_eq!(lexer.next_token(), Token::Eof);
    assert_eq!(lexer.next_token(), Token::Eof);
    assert_eq!(lexer.input(), "  ");
}

#[test]
fn whitespace_is_skipped() {
    assert_eq!(
        lex_all(" \t(\r\n) ,"),
        vec![Token::Lparen, Token::Rparen, Token::Comma, Token::Eof]
    );
}

#[test]
fn punctuation_and_illegal() {
    assert_eq!(
        lex_all("+-*"),
        vec![Token::Plus, Token::Minus, Token::Illegal, Token::Eof]
    );
}

#[test]
fn number_forms() {
    assert_eq!(
        lex_all("12.5 7. 3.x 0"),
        vec![
            Token::Float("12.5".to_string()),
            Token::Int("7".to_string()),
            Token::Ident(".".to_string()),
            Token::Int("3".to_string()),
            Token::Ident(".x".to_string()),
            Token::Int("0".to_string()),
            Token::Eof,
        ]
    );
}

#[test]
fn identifier_forms() {
    assert_eq!(
        lex_all("$meta a_b.c2 名前"),
        vec![
            Token::Ident("$meta".to_string()),
            Token::Ident("a_b.c2".to_string()),
            Token::Ident("名前".to_string()),
            Token::Eof,
        ]
    );
}

#[test]
fn keywords() {
    assert_eq!(
        lex_all("true false and or eq ne le ge lt gt"),
        vec![
            Token::True,
            Token::False,
            Token::And,
            Token::Or,
            Token::Eq,
            Token::NotEq,
            Token::Le,
            Token::Ge,
            Token::Lt,
            Token::Gt,
            Token::Eof,
        ]
    );
    assert_eq!(
        lex_all("sort select values aggregate distinct in out contains excludes limit"),
        vec![
            Token::Sort,
            Token::Select,
            Token::Values,
            Token::Aggregate,
            Token::Distinct,
            Token::In,
            Token::Out,
            Token::Contains,
            Token::Excludes,
            Token::Limit,
            Token::Eof,
        ]
    );
}

#[test]
fn lookup_ident_words() {
    assert_eq!(lookup_ident("limit"), Token::Limit);
    assert_eq!(lookup_ident("ne"), Token::NotEq);
    assert_eq!(lookup_ident("And"), Token::Ident("And".to_string()));
    assert_eq!(lookup_ident("lim"), Token::Ident("lim".to_string()));
}

#[test]
fn nul_character_reads_as_eof() {
    assert_eq!(
        lex_all("a\u{0}"),
        vec![Token::Ident("a".to_string()), Token::Eof]
    );
}
