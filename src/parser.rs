use vstd::prelude::*;
use crate::ast::{Infix, Query, QueryV, Value, ValueV, query_views, lemma_list_views};
use crate::lexer::{Lexer, tokens, tokens_from, lex_step, exhausted, lemma_lex_progress};
use crate::token::{Token, TokenV, chars_of};

verus! {

/// Why a parse failed. Each error carries the token found where another was
/// expected, or the text of a literal that could not be converted.
#[derive(Debug)]
pub enum ParserError {
    ExpectedQueryToken(Token),
    ExpectedFilterToken(Token),
    ExpectedValueToken(Token),
    ExpectedSomethingToken(Token),
    ExpectedIdentifierToken(Token),
    ExpectedBooleanToken(Token),
    ExpectedIntegerToken(Token),
    ExpectedFloatToken(Token),
    ExpectedStringToken(Token),
    ExpectedLparen(Token),
    ExpectedRparen(Token),
    ExpectedComma(Token),
    ParseInt(String),
    ParseFloat(String),
    NotImplemented(String),
}

/// The mathematical value of a `ParserError`.
pub enum ErrorV {
    ExpectedQueryToken(TokenV),
    ExpectedFilterToken(TokenV),
    ExpectedValueToken(TokenV),
    ExpectedSomethingToken(TokenV),
    ExpectedIdentifierToken(TokenV),
    ExpectedBooleanToken(TokenV),
    ExpectedIntegerToken(TokenV),
    ExpectedFloatToken(TokenV),
    ExpectedStringToken(TokenV),
    ExpectedLparen(TokenV),
    ExpectedRparen(TokenV),
    ExpectedComma(TokenV),
    ParseInt(Seq<char>),
    ParseFloat(Seq<char>),
    NotImplemented(Seq<char>),
}

impl ParserError {
    pub open spec fn view(self) -> ErrorV {
        match self {
            ParserError::ExpectedQueryToken(t) => ErrorV::ExpectedQueryToken(t.view()),
            ParserError::ExpectedFilterToken(t) => ErrorV::ExpectedFilterToken(t.view()),
            ParserError::ExpectedValueToken(t) => ErrorV::ExpectedValueToken(t.view()),
            ParserError::ExpectedSomethingToken(t) => ErrorV::ExpectedSomethingToken(t.view()),
            ParserError::ExpectedIdentifierToken(t) => ErrorV::ExpectedIdentifierToken(t.view()),
            ParserError::ExpectedBooleanToken(t) => ErrorV::ExpectedBooleanToken(t.view()),
            ParserError::ExpectedIntegerToken(t) => ErrorV::ExpectedIntegerToken(t.view()),
            ParserError::ExpectedFloatToken(t) => ErrorV::ExpectedFloatToken(t.view()),
            ParserError::ExpectedStringToken(t) => ErrorV::ExpectedStringToken(t.view()),
            ParserError::ExpectedLparen(t) => ErrorV::ExpectedLparen(t.view()),
            ParserError::ExpectedRparen(t) => ErrorV::ExpectedRparen(t.view()),
            ParserError::ExpectedComma(t) => ErrorV::ExpectedComma(t.view()),
            ParserError::ParseInt(s) => ErrorV::ParseInt(s@),
            ParserError::ParseFloat(s) => ErrorV::ParseFloat(s@),
            ParserError::NotImplemented(s) => ErrorV::NotImplemented(s@),
        }
    }
}

pub open spec fn token_views(ts: Seq<Token>) -> Seq<TokenV> {
    ts.map_values(|t: Token| t.view())
}

pub open spec fn result_view(r: Result<Query, ParserError>) -> Result<QueryV, ErrorV> {
    match r {
        Ok(q) => Ok(q.view()),
        Err(e) => Err(e.view()),
    }
}

pub open spec fn value_result_view(r: Result<Value, ParserError>) -> Result<ValueV, ErrorV> {
    match r {
        Ok(v) => Ok(v.view()),
        Err(e) => Err(e.view()),
    }
}

/// The token at index `i`; past the end the stream reads as `Eof`.
pub open spec fn tok(ts: Seq<TokenV>, i: int) -> TokenV {
    if 0 <= i < ts.len() {
        ts[i]
    } else {
        TokenV::Plain(Token::Eof)
    }
}

pub open spec fn comparator(t: TokenV) -> Option<Infix> {
    match t {
        TokenV::Plain(Token::Eq) => Some(Infix::Eq),
        TokenV::Plain(Token::NotEq) => Some(Infix::NotEq),
        TokenV::Plain(Token::Le) => Some(Infix::Le),
        TokenV::Plain(Token::Ge) => Some(Infix::Ge),
        TokenV::Plain(Token::Lt) => Some(Infix::Lt),
        TokenV::Plain(Token::Gt) => Some(Infix::Gt),
        _ => None,
    }
}

pub open spec fn all_digits(d: Seq<char>) -> bool {
    forall|i: int| 0 <= i < d.len() ==> '0' <= #[trigger] d[i] <= '9'
}

/// The number that a run of decimal digits spells.
pub open spec fn digits_value(d: Seq<char>) -> nat
    decreases d.len(),
{
    if d.len() == 0 {
        0
    } else {
        digits_value(d.drop_last()) * 10 + ((d.last() as u32) - ('0' as u32)) as nat
    }
}

/// The integer literal that a token's text gives, or the conversion error.
pub open spec fn integer_literal(d: Seq<char>) -> Result<ValueV, ErrorV> {
    if d.len() > 0 && all_digits(d) && digits_value(d) <= i64::MAX {
        Ok(ValueV::IntegerLiteral(digits_value(d) as i64))
    } else {
        Err(ErrorV::ParseInt(d))
    }
}

/// The literal that starts with token `t`, if one can.
pub open spec fn literal(t: TokenV) -> Option<Result<ValueV, ErrorV>> {
    match t {
        TokenV::Ident(x) => Some(Ok(ValueV::Identifier(x))),
        TokenV::Int(d) => Some(integer_literal(d)),
        TokenV::Float(d) => Some(Ok(ValueV::FloatLiteral(d))),
        TokenV::Str(x) => Some(Ok(ValueV::StringLiteral(x))),
        TokenV::Plain(Token::True) => Some(Ok(ValueV::Boolean(true))),
        TokenV::Plain(Token::False) => Some(Ok(ValueV::Boolean(false))),
        _ => None,
    }
}

/// `cmp_op "(" identifier "," value ")"` at index `i`.
pub open spec fn parse_filter(ts: Seq<TokenV>, i: int) -> (Result<QueryV, ErrorV>, int) {
    match comparator(tok(ts, i)) {
        None => (Err(ErrorV::ExpectedFilterToken(tok(ts, i))), i),
        Some(op) => if tok(ts, i + 1) != TokenV::Plain(Token::Lparen) {
            (Err(ErrorV::ExpectedLparen(tok(ts, i + 1))), i)
        } else {
            match tok(ts, i + 2) {
                TokenV::Ident(x) => if tok(ts, i + 3) != TokenV::Plain(Token::Comma) {
                    (Err(ErrorV::ExpectedComma(tok(ts, i + 3))), i + 2)
                } else {
                    match literal(tok(ts, i + 4)) {
                        None => (Err(ErrorV::ExpectedValueToken(tok(ts, i + 4))), i + 4),
                        Some(Err(e)) => (Err(e), i + 4),
                        Some(Ok(v)) => if tok(ts, i + 5) != TokenV::Plain(Token::Rparen) {
                            (Err(ErrorV::ExpectedRparen(tok(ts, i + 5))), i + 4)
                        } else {
                            (Ok(QueryV::Filter(op, ValueV::Identifier(x), v)), i + 6)
                        },
                    }
                },
                _ => (Err(ErrorV::ExpectedIdentifierToken(tok(ts, i + 2))), i + 2),
            }
        },
    }
}

/// A query at index `i`: its tree, or the first error, and the index past it.
pub open spec fn parse_q(ts: Seq<TokenV>, i: int) -> (Result<QueryV, ErrorV>, int)
    decreases ts.len() - i, 0int,
{
    let t = tok(ts, i);
    if t == TokenV::Plain(Token::And) || t == TokenV::Plain(Token::Or) {
        if tok(ts, i + 1) != TokenV::Plain(Token::Lparen) {
            (Err(ErrorV::ExpectedLparen(tok(ts, i + 1))), i)
        } else {
            let (r, j) = parse_list(ts, i + 2);
            match r {
                Ok(qs) => (
                    Ok(
                        if t == TokenV::Plain(Token::And) {
                            QueryV::And(qs)
                        } else {
                            QueryV::Or(qs)
                        },
                    ),
                    j,
                ),
                Err(e) => (Err(e), j),
            }
        }
    } else {
        parse_filter(ts, i)
    }
}

/// The queries of a list from index `i` to its closing parenthesis, each
/// followed by an optional comma; the index is past the parenthesis.
pub open spec fn parse_list(ts: Seq<TokenV>, i: int) -> (Result<Seq<QueryV>, ErrorV>, int)
    decreases ts.len() - i, 1int,
{
    if tok(ts, i) == TokenV::Plain(Token::Rparen) {
        (Ok(seq![]), i + 1)
    } else {
        let (r, j) = parse_q(ts, i);
        match r {
            Err(e) => (Err(e), j),
            Ok(q) => {
                let k = if tok(ts, j) == TokenV::Plain(Token::Comma) {
                    j + 1
                } else {
                    j
                };
                // A parsed query always moves forward (lemma_parse_progress);
                // the test only keeps the recursion visibly well-founded.
                if i < k <= ts.len() {
                    prepend(seq![q], parse_list(ts, k))
                } else {
                    (Err(ErrorV::ExpectedRparen(tok(ts, k))), k)
                }
            },
        }
    }
}

pub open spec fn prepend(acc: Seq<QueryV>, r: (Result<Seq<QueryV>, ErrorV>, int)) -> (
    Result<Seq<QueryV>, ErrorV>,
    int,
) {
    match r.0 {
        Ok(qs) => (Ok(acc + qs), r.1),
        Err(e) => (Err(e), r.1),
    }
}

/// A successful parse moves forward and stays within the tokens.
pub proof fn lemma_parse_progress(ts: Seq<TokenV>, i: int)
    requires
        0 <= i <= ts.len(),
    ensures
        parse_q(ts, i).0 is Ok ==> i < parse_q(ts, i).1 <= ts.len(),
        parse_list(ts, i).0 is Ok ==> i < parse_list(ts, i).1 <= ts.len(),
    decreases ts.len() - i,
{
    let t = tok(ts, i);
    if (t == TokenV::Plain(Token::And) || t == TokenV::Plain(Token::Or)) && tok(ts, i + 1)
        == TokenV::Plain(Token::Lparen) {
        lemma_parse_progress(ts, i + 2);
    }
    if tok(ts, i) != TokenV::Plain(Token::Rparen) {
        let (r, j) = parse_q(ts, i);
        if r is Ok {
            let k = if tok(ts, j) == TokenV::Plain(Token::Comma) {
                j + 1
            } else {
                j
            };
            if i < k <= ts.len() {
                lemma_parse_progress(ts, k);
            }
        }
    }
}

proof fn lemma_shift_query(a: Seq<TokenV>, b: Seq<TokenV>, i: int, j: int, d: int)
    requires
        0 <= i <= j <= a.len(),
        0 <= i + d,
        j + d <= b.len(),
        forall|k: int| i <= k < j ==> #[trigger] a[k] == b[k + d],
    ensures
        (parse_q(a, i).0 is Ok && parse_q(a, i).1 <= j) ==> parse_q(b, i + d) == (
            parse_q(a, i).0,
            parse_q(a, i).1 + d,
        ),
    decreases a.len() - i, 0int,
{
    lemma_parse_progress(a, i);
    if parse_q(a, i).0 is Ok && parse_q(a, i).1 <= j {
        assert forall|k: int| i <= k < j implies tok(a, k) == tok(b, k + d) by {
            assert(a[k] == b[k + d]);
        }
        let t = tok(a, i);
        if (t == TokenV::Plain(Token::And) || t == TokenV::Plain(Token::Or)) {
            lemma_parse_progress(a, i + 2);
            lemma_shift_list(a, b, i + 2, j, d);
        }
    }
}

proof fn lemma_shift_list(a: Seq<TokenV>, b: Seq<TokenV>, i: int, j: int, d: int)
    requires
        0 <= i <= j <= a.len(),
        0 <= i + d,
        j + d <= b.len(),
        forall|k: int| i <= k < j ==> #[trigger] a[k] == b[k + d],
    ensures
        (parse_list(a, i).0 is Ok && parse_list(a, i).1 <= j) ==> parse_list(b, i + d) == (
            parse_list(a, i).0,
            parse_list(a, i).1 + d,
        ),
    decreases a.len() - i, 1int,
{
    lemma_parse_progress(a, i);
    if parse_list(a, i).0 is Ok && parse_list(a, i).1 <= j {
        assert forall|k: int| i <= k < j implies tok(a, k) == tok(b, k + d) by {
            assert(a[k] == b[k + d]);
        }
        if tok(a, i) != TokenV::Plain(Token::Rparen) {
            let (r, j1) = parse_q(a, i);
            let k = if tok(a, j1) == TokenV::Plain(Token::Comma) {
                j1 + 1
            } else {
                j1
            };
            lemma_parse_progress(a, k);
            lemma_shift_query(a, b, i, j, d);
            lemma_shift_list(a, b, k, j, d);
        }
    }
}

/// Query token sequences joined by commas.
pub open spec fn comma_joined(parts: Seq<Seq<TokenV>>) -> Seq<TokenV>
    decreases parts.len(),
{
    if parts.len() == 0 {
        seq![]
    } else if parts.len() == 1 {
        parts[0]
    } else {
        parts[0] + seq![TokenV::Plain(Token::Comma)] + comma_joined(parts.drop_first())
    }
}

proof fn lemma_joined_list(pre: Seq<TokenV>, parts: Seq<Seq<TokenV>>, qs: Seq<QueryV>, post: Seq<TokenV>)
    requires
        parts.len() == qs.len(),
        forall|m: int| 0 <= m < parts.len() ==> #[trigger] parse_q(parts[m], 0) == (
            Ok::<QueryV, ErrorV>(qs[m]),
            parts[m].len() as int,
        ),
    ensures
        parse_list(pre + comma_joined(parts) + seq![TokenV::Plain(Token::Rparen)] + post, pre.len() as int) == (
            Ok::<Seq<QueryV>, ErrorV>(qs),
            (pre.len() + comma_joined(parts).len() + 1) as int,
        ),
    decreases parts.len(),
{
    let rp = seq![TokenV::Plain(Token::Rparen)];
    let w = pre + comma_joined(parts) + rp + post;
    let p = pre.len() as int;
    if parts.len() == 0 {
        assert(w[p] == TokenV::Plain(Token::Rparen));
        assert(qs =~= Seq::<QueryV>::empty());
    } else {
        let t = parts[0];
        assert(parse_q(parts[0], 0) == (Ok::<QueryV, ErrorV>(qs[0]), t.len() as int));
        lemma_parse_progress(t, 0);
        let tail = if parts.len() == 1 { rp + post } else {
            seq![TokenV::Plain(Token::Comma)] + comma_joined(parts.drop_first()) + rp + post
        };
        assert(w =~= pre + t + tail);
        assert forall|k: int| 0 <= k < t.len() implies #[trigger] t[k] == w[k + p] by {
            assert(w[k + p] == (pre + t + tail)[k + p]);
        }
        lemma_shift_query(t, w, 0, t.len() as int, p);
        let e = p + t.len();
        assert(w[e] == tail[0]);
        assert(tok(w, p) == t[0]);
        assert(tok(t, 0) != TokenV::Plain(Token::Rparen));
        assert(parse_q(w, p) == (Ok::<QueryV, ErrorV>(qs[0]), e));
        if parts.len() == 1 {
            assert(w[e] == TokenV::Plain(Token::Rparen));
            assert(comma_joined(parts) == t);
            assert(parse_list(w, e) == (Ok::<Seq<QueryV>, ErrorV>(seq![]), e + 1));
            assert(seq![qs[0]] + Seq::<QueryV>::empty() =~= qs);
        } else {
            let rest = parts.drop_first();
            let pre2 = pre + t + seq![TokenV::Plain(Token::Comma)];
            assert(w =~= pre2 + comma_joined(rest) + rp + post);
            assert forall|m: int| 0 <= m < rest.len() implies #[trigger] parse_q(rest[m], 0) == (
                Ok::<QueryV, ErrorV>(qs.drop_first()[m]),
                rest[m].len() as int,
            ) by {
                assert(rest[m] == parts[m + 1]);
                assert(parse_q(parts[m + 1], 0) == (Ok::<QueryV, ErrorV>(qs[m + 1]), parts[m + 1].len() as int));
            }
            lemma_joined_list(pre2, rest, qs.drop_first(), post);
            assert(comma_joined(parts) == t + seq![TokenV::Plain(Token::Comma)] + comma_joined(rest));
            assert(w[e] == TokenV::Plain(Token::Comma));
            assert(pre2.len() == e + 1);
            assert(seq![qs[0]] + qs.drop_first() =~= qs);
        }
    }
}

/// Queries that each parse on their own, written one after another inside
/// `and(` … `)` and separated by commas, parse to `And` of their trees in
/// the same order, each kept whole; inside `or(` … `)` likewise to `Or`.
/// Whatever follows the closing parenthesis is left unread.
pub proof fn lemma_group_of_queries(parts: Seq<Seq<TokenV>>, qs: Seq<QueryV>, post: Seq<TokenV>)
    requires
        parts.len() == qs.len(),
        forall|m: int| 0 <= m < parts.len() ==> #[trigger] parse_q(parts[m], 0) == (
            Ok::<QueryV, ErrorV>(qs[m]),
            parts[m].len() as int,
        ),
    ensures
        parse_q(
            seq![TokenV::Plain(Token::And), TokenV::Plain(Token::Lparen)] + comma_joined(parts)
                + seq![TokenV::Plain(Token::Rparen)] + post,
            0,
        ) == (Ok::<QueryV, ErrorV>(QueryV::And(qs)), (comma_joined(parts).len() + 3) as int),
        parse_q(
            seq![TokenV::Plain(Token::Or), TokenV::Plain(Token::Lparen)] + comma_joined(parts)
                + seq![TokenV::Plain(Token::Rparen)] + post,
            0,
        ) == (Ok::<QueryV, ErrorV>(QueryV::Or(qs)), (comma_joined(parts).len() + 3) as int),
{
    let a = seq![TokenV::Plain(Token::And), TokenV::Plain(Token::Lparen)];
    let o = seq![TokenV::Plain(Token::Or), TokenV::Plain(Token::Lparen)];
    let w = a + comma_joined(parts) + seq![TokenV::Plain(Token::Rparen)] + post;
    let v = o + comma_joined(parts) + seq![TokenV::Plain(Token::Rparen)] + post;
    lemma_joined_list(a, parts, qs, post);
    lemma_joined_list(o, parts, qs, post);
    assert(w[0] == TokenV::Plain(Token::And) && w[1] == TokenV::Plain(Token::Lparen));
    assert(v[0] == TokenV::Plain(Token::Or) && v[1] == TokenV::Plain(Token::Lparen));
}

proof fn lemma_tokens_end(s: Seq<char>, pos: int)
    requires
        0 <= pos <= s.len(),
    ensures
        tokens_from(s, pos).len() >= 1,
        tokens_from(s, pos).last() == TokenV::Plain(Token::Eof),
    decreases s.len() - pos,
{
    lemma_lex_progress(s, pos);
    let (t, q) = lex_step(s, pos);
    if !(exhausted(s, pos) || !(pos < q <= s.len())) {
        lemma_tokens_end(s, q);
    }
}

/// What a missing punctuation token reports.
pub open spec fn missing(want: Token, found: TokenV) -> ErrorV {
    match want {
        Token::Lparen => ErrorV::ExpectedLparen(found),
        Token::Rparen => ErrorV::ExpectedRparen(found),
        _ => ErrorV::ExpectedComma(found),
    }
}

proof fn lemma_prepend(acc: Seq<QueryV>, x: QueryV, rest: (Result<Seq<QueryV>, ErrorV>, int))
    ensures
        prepend(acc, prepend(seq![x], rest)) == prepend(acc.push(x), rest),
{
    if let Ok(qs) = rest.0 {
        assert(acc + (seq![x] + qs) =~= acc.push(x) + qs);
    }
}

proof fn lemma_digits_prefix(d: Seq<char>, j: int)
    requires
        all_digits(d),
        0 <= j <= d.len(),
    ensures
        digits_value(d.take(j)) <= digits_value(d),
    decreases d.len(),
{
    if j < d.len() {
        assert(all_digits(d.drop_last()));
        lemma_digits_prefix(d.drop_last(), j);
        assert(d.drop_last().take(j) =~= d.take(j));
    } else {
        assert(d.take(j) =~= d);
    }
}

/// The value of a run of decimal digits, when it fits 64 signed bits.
fn decimal_i64(d: &str) -> (r: Option<i64>)
    ensures
        r == (if d@.len() > 0 && all_digits(d@) && digits_value(d@) <= i64::MAX {
            Some(digits_value(d@) as i64)
        } else {
            None::<i64>
        }),
{
    let v = chars_of(d);
    if v.len() == 0 {
        return None;
    }
    let mut acc: i64 = 0;
    let mut i: usize = 0;
    while i < v.len()
        invariant
            v@ == d@,
            i <= v.len(),
            all_digits(v@.take(i as int)),
            acc == digits_value(v@.take(i as int)),
        decreases v.len() - i,
    {
        let c = v[i];
        if !('0' <= c && c <= '9') {
            assert(!all_digits(d@)) by {
                assert(d@[i as int] == c);
            }
            return None;
        }
        let dv = ((c as u32) - ('0' as u32)) as i64;
        assert(0 <= dv <= 9) by {
            assert('0' as u32 <= c as u32 <= '9' as u32);
        }
        let ghost next = v@.take(i + 1);
        assert(next.drop_last() =~= v@.take(i as int));
        assert(next.last() == c);
        if acc > (i64::MAX - dv) / 10 {
            assert(acc * 10 + dv > i64::MAX) by (nonlinear_arith)
                requires
                    acc > (i64::MAX - dv) / 10,
                    0 <= dv <= 9,
            ;
            proof {
                if all_digits(d@) {
                    lemma_digits_prefix(d@, i + 1);
                }
            }
            return None;
        }
        assert(acc * 10 + dv <= i64::MAX) by (nonlinear_arith)
            requires
                acc <= (i64::MAX - dv) / 10,
                0 <= dv <= 9,
                acc >= 0,
        ;
        acc = acc * 10 + dv;
        i = i + 1;
        assert(all_digits(v@.take(i as int))) by {
            assert forall|j: int| 0 <= j < i implies '0' <= #[trigger] v@.take(i as int)[j] <= '9' by {
                if j < i - 1 {
                    assert(v@.take(i as int)[j] == v@.take(i - 1)[j]);
                }
            }
        }
    }
    assert(v@.take(i as int) =~= d@);
    Some(acc)
}

/// Parses the query language over the tokens of one input.
pub struct Parser {
    lexer: Lexer,
    errors: Vec<ParserError>,
    tokens: Vec<Token>,
    index: usize,
}

impl Parser {
    /// The tokens of the input, from where the lexer stood, through `Eof`.
    pub closed spec fn toks(&self) -> Seq<TokenV> {
        token_views(self.tokens@)
    }

    /// The index of the current token.
    pub closed spec fn position(&self) -> int {
        self.index as int
    }

    pub closed spec fn source(&self) -> Seq<char> {
        self.lexer.text()
    }

    pub closed spec fn wf(&self) -> bool {
        &&& self.lexer.wf()
        &&& self.errors.len() == 0
        &&& self.tokens.len() >= 1
        &&& self.toks().last() == TokenV::Plain(Token::Eof)
        &&& self.index <= self.tokens.len()
    }

    pub fn new_from_string(s: String) -> (r: Parser)
        ensures
            r.wf(),
            r.source() == s@,
            r.toks() == tokens(s@),
            r.position() == 0,
    {
        let lexer = Lexer::new(s);
        Self::new(lexer)
    }

    /// A parser over the tokens that `lexer` has left.
    pub fn new(lexer: Lexer) -> (r: Parser)
        requires
            lexer.wf(),
        ensures
            r.wf(),
            r.source() == lexer.text(),
            r.toks() == tokens_from(lexer.text(), lexer.cursor()),
            r.position() == 0,
    {
        let mut lexer = lexer;
        let ghost s = lexer.text();
        let ghost p0 = lexer.cursor();
        proof {
            lexer.lemma_cursor_in_text();
        }
        let mut tokens: Vec<Token> = Vec::new();
        let mut done = false;
        while !done
            invariant
                lexer.wf(),
                lexer.text() == s,
                0 <= lexer.cursor() <= s.len(),
                done ==> token_views(tokens@) == tokens_from(s, p0),
                !done ==> token_views(tokens@) + tokens_from(s, lexer.cursor()) == tokens_from(s, p0),
            decreases s.len() - lexer.cursor() + (if done { 0int } else { 1int }),
        {
            let ghost before = lexer.cursor();
            let ghost old_tokens = tokens@;
            let end = lexer.at_end();
            proof {
                lemma_lex_progress(s, before);
            }
            let t = lexer.next_token();
            tokens.push(t);
            proof {
                assert(token_views(tokens@) =~= token_views(old_tokens).push(t.view()));
                let rest = tokens_from(s, lexer.cursor());
                if end {
                    assert(tokens_from(s, before) == seq![t.view()]);
                    assert(token_views(old_tokens) + seq![t.view()] =~= token_views(tokens@));
                } else {
                    assert(tokens_from(s, before) == seq![t.view()] + rest);
                    assert(token_views(old_tokens) + (seq![t.view()] + rest) =~= token_views(
                        tokens@,
                    ) + rest);
                }
            }
            done = end;
            proof {
                lexer.lemma_cursor_in_text();
            }
        }
        proof {
            lemma_tokens_end(s, p0);
        }
        Parser { lexer, errors: Vec::new(), tokens, index: 0 }
    }

    pub fn input(&self) -> (r: &str)
        requires
            self.wf(),
        ensures
            r@ == self.source(),
    {
        self.lexer.input()
    }

    /// Errors collected beside the first; parsing stops at the first, so
    /// there are none.
    pub fn errors(&self) -> (r: &[ParserError])
        requires
            self.wf(),
        ensures
            r@.len() == 0,
    {
        self.errors.as_slice()
    }

    fn cur(&self) -> (r: &Token)
        requires
            self.wf(),
        ensures
            r.view() == tok(self.toks(), self.position()),
    {
        if self.index < self.tokens.len() {
            &self.tokens[self.index]
        } else {
            &self.tokens[self.tokens.len() - 1]
        }
    }

    fn peek(&self) -> (r: &Token)
        requires
            self.wf(),
        ensures
            r.view() == tok(self.toks(), self.position() + 1),
    {
        if self.index < self.tokens.len() - 1 {
            &self.tokens[self.index + 1]
        } else {
            &self.tokens[self.tokens.len() - 1]
        }
    }

    fn at_rparen(&self) -> (r: bool)
        requires
            self.wf(),
        ensures
            r == (tok(self.toks(), self.position()) == TokenV::Plain(Token::Rparen)),
    {
        match self.cur() {
            Token::Rparen => true,
            _ => false,
        }
    }

    fn at_comma(&self) -> (r: bool)
        requires
            self.wf(),
        ensures
            r == (tok(self.toks(), self.position()) == TokenV::Plain(Token::Comma)),
    {
        match self.cur() {
            Token::Comma => true,
            _ => false,
        }
    }

    pub fn parse_query(&mut self) -> (r: Result<Query, ParserError>)
        requires
            old(self).wf(),
        ensures
            final(self).wf(),
            final(self).toks() == old(self).toks(),
            final(self).source() == old(self).source(),
            result_view(r) == parse_q(old(self).toks(), old(self).position()).0,
            final(self).position() == parse_q(old(self).toks(), old(self).position()).1,
        decreases old(self).toks().len() - old(self).position(), 1int,
    {
        match self.cur() {
            Token::And => self.parse_and(),
            Token::Or => self.parse_or(),
            _ => self.parse_filter(),
        }
    }

    fn parse_and(&mut self) -> (r: Result<Query, ParserError>)
        requires
            old(self).wf(),
            tok(old(self).toks(), old(self).position()) == TokenV::Plain(Token::And),
        ensures
            final(self).wf(),
            final(self).toks() == old(self).toks(),
            final(self).source() == old(self).source(),
            result_view(r) == parse_q(old(self).toks(), old(self).position()).0,
            final(self).position() == parse_q(old(self).toks(), old(self).position()).1,
        decreases old(self).toks().len() - old(self).position(), 0int,
    {
        match self.expect_peek(&Token::Lparen) {
            Ok(()) => {},
            Err(e) => return Err(e),
        }
        self.next_token();
        match self.parse_list() {
            Ok(queries) => {
                proof {
                    lemma_list_views(queries);
                }
                Ok(Query::And(queries))
            },
            Err(e) => Err(e),
        }
    }

    fn parse_or(&mut self) -> (r: Result<Query, ParserError>)
        requires
            old(self).wf(),
            tok(old(self).toks(), old(self).position()) == TokenV::Plain(Token::Or),
        ensures
            final(self).wf(),
            final(self).toks() == old(self).toks(),
            final(self).source() == old(self).source(),
            result_view(r) == parse_q(old(self).toks(), old(self).position()).0,
            final(self).position() == parse_q(old(self).toks(), old(self).position()).1,
        decreases old(self).toks().len() - old(self).position(), 0int,
    {
        match self.expect_peek(&Token::Lparen) {
            Ok(()) => {},
            Err(e) => return Err(e),
        }
        self.next_token();
        match self.parse_list() {
            Ok(queries) => {
                proof {
                    lemma_list_views(queries);
                }
                Ok(Query::Or(queries))
            },
            Err(e) => Err(e),
        }
    }

    /// The queries up to a closing parenthesis, which it consumes.
    fn parse_list(&mut self) -> (r: Result<Vec<Query>, ParserError>)
        requires
            old(self).wf(),
        ensures
            final(self).wf(),
            final(self).toks() == old(self).toks(),
            final(self).source() == old(self).source(),
            match r {
                Ok(v) => parse_list(old(self).toks(), old(self).position()) == (
                    Ok::<Seq<QueryV>, ErrorV>(query_views(v@)),
                    final(self).position(),
                ),
                Err(e) => parse_list(old(self).toks(), old(self).position()) == (
                    Err::<Seq<QueryV>, ErrorV>(e.view()),
                    final(self).position(),
                ),
            },
        decreases old(self).toks().len() - old(self).position(), 2int,
    {
        let ghost ts = self.toks();
        let ghost src = self.source();
        let ghost i0 = self.position();
        let mut queries: Vec<Query> = Vec::new();
        proof {
            assert(query_views(queries@) =~= Seq::<QueryV>::empty());
            let x = parse_list(ts, i0);
            if let Ok(qs) = x.0 {
                assert(Seq::<QueryV>::empty() + qs =~= qs);
            }
        }
        while !self.at_rparen()
            invariant
                self.wf(),
                self.toks() == ts,
                self.source() == src,
                ts == old(self).toks(),
                src == old(self).source(),
                i0 == old(self).position(),
                i0 <= self.position() <= ts.len(),
                parse_list(ts, i0) == prepend(query_views(queries@), parse_list(ts, self.position())),
            decreases ts.len() - self.position(),
        {
            let ghost i = self.position();
            proof {
                lemma_parse_progress(ts, i);
            }
            let q = match self.parse_query() {
                Ok(q) => q,
                Err(e) => {
                    return Err(e);
                },
            };
            let ghost old_queries = queries@;
            queries.push(q);
            if self.at_comma() {
                self.next_token();
            }
            proof {
                assert(query_views(queries@) =~= query_views(old_queries).push(q.view()));
                lemma_prepend(query_views(old_queries), q.view(), parse_list(ts, self.position()));
            }
        }
        proof {
            if let Ok(qs) = parse_list(ts, self.position()).0 {
                assert(query_views(queries@) + qs =~= query_views(queries@));
            }
        }
        self.next_token();
        Ok(queries)
    }

    fn parse_filter(&mut self) -> (r: Result<Query, ParserError>)
        requires
            old(self).wf(),
        ensures
            final(self).wf(),
            final(self).toks() == old(self).toks(),
            final(self).source() == old(self).source(),
            result_view(r) == parse_filter(old(self).toks(), old(self).position()).0,
            final(self).position() == parse_filter(old(self).toks(), old(self).position()).1,
    {
        let filter = match self.cur() {
            Token::Eq => Infix::Eq,
            Token::NotEq => Infix::NotEq,
            Token::Le => Infix::Le,
            Token::Ge => Infix::Ge,
            Token::Lt => Infix::Lt,
            Token::Gt => Infix::Gt,
            _ => return Err(ParserError::ExpectedFilterToken(self.cur().duplicate())),
        };
        match self.expect_peek(&Token::Lparen) {
            Ok(()) => {},
            Err(e) => return Err(e),
        }
        self.next_token();
        let ident = match self.parse_identifier() {
            Ok(v) => v,
            Err(e) => return Err(e),
        };
        match self.expect_peek(&Token::Comma) {
            Ok(()) => {},
            Err(e) => return Err(e),
        }
        self.next_token();
        let val = match self.parse_value() {
            None => return Err(ParserError::ExpectedValueToken(self.cur().duplicate())),
            Some(Err(e)) => return Err(e),
            Some(Ok(v)) => v,
        };
        match self.expect_peek(&Token::Rparen) {
            Ok(()) => {},
            Err(e) => return Err(e),
        }
        self.next_token();
        Ok(Query::Filter(filter, ident, val))
    }

    /// The literal that starts at the current token, if one can start there.
    fn parse_value(&self) -> (r: Option<Result<Value, ParserError>>)
        requires
            self.wf(),
        ensures
            match r {
                None => literal(tok(self.toks(), self.position())) is None,
                Some(x) => literal(tok(self.toks(), self.position())) == Some(value_result_view(x)),
            },
    {
        match self.cur() {
            Token::Ident(_) => Some(self.parse_identifier()),
            Token::Int(_) => Some(self.parse_integer_literal()),
            Token::Float(_) => Some(self.parse_float_literal()),
            Token::Str(_) => Some(self.parse_string_literal()),
            Token::True => Some(self.parse_boolean()),
            Token::False => Some(self.parse_boolean()),
            _ => None,
        }
    }

    fn parse_identifier(&self) -> (r: Result<Value, ParserError>)
        requires
            self.wf(),
        ensures
            value_result_view(r) == match tok(self.toks(), self.position()) {
                TokenV::Ident(x) => Ok(ValueV::Identifier(x)),
                t => Err(ErrorV::ExpectedIdentifierToken(t)),
            },
    {
        match self.parse_identifier_string() {
            Ok(s) => Ok(Value::Identifier(s)),
            Err(e) => Err(e),
        }
    }

    fn parse_identifier_string(&self) -> (r: Result<String, ParserError>)
        requires
            self.wf(),
        ensures
            match tok(self.toks(), self.position()) {
                TokenV::Ident(x) => r matches Ok(s) && s@ == x,
                t => r matches Err(e) && e.view() == ErrorV::ExpectedIdentifierToken(t),
            },
    {
        match self.cur() {
            Token::Ident(ident) => Ok(ident.clone()),
            t => Err(ParserError::ExpectedIdentifierToken(t.duplicate())),
        }
    }

    fn parse_integer_literal(&self) -> (r: Result<Value, ParserError>)
        requires
            self.wf(),
        ensures
            value_result_view(r) == match tok(self.toks(), self.position()) {
                TokenV::Int(d) => integer_literal(d),
                t => Err(ErrorV::ExpectedIntegerToken(t)),
            },
    {
        match self.cur() {
            Token::Int(digits) => match decimal_i64(digits.as_str()) {
                Some(value) => Ok(Value::IntegerLiteral(value)),
                None => Err(ParserError::ParseInt(digits.clone())),
            },
            t => Err(ParserError::ExpectedIntegerToken(t.duplicate())),
        }
    }

    fn parse_float_literal(&self) -> (r: Result<Value, ParserError>)
        requires
            self.wf(),
        ensures
            value_result_view(r) == match tok(self.toks(), self.position()) {
                TokenV::Float(d) => Ok(ValueV::FloatLiteral(d)),
                t => Err(ErrorV::ExpectedFloatToken(t)),
            },
    {
        match self.cur() {
            Token::Float(float) => Ok(Value::FloatLiteral(float.clone())),
            t => Err(ParserError::ExpectedFloatToken(t.duplicate())),
        }
    }

    fn parse_string_literal(&self) -> (r: Result<Value, ParserError>)
        requires
            self.wf(),
        ensures
            value_result_view(r) == match tok(self.toks(), self.position()) {
                TokenV::Str(x) => Ok(ValueV::StringLiteral(x)),
                t => Err(ErrorV::ExpectedStringToken(t)),
            },
    {
        match self.cur() {
            Token::Str(s) => Ok(Value::StringLiteral(s.clone())),
            t => Err(ParserError::ExpectedStringToken(t.duplicate())),
        }
    }

    fn parse_boolean(&self) -> (r: Result<Value, ParserError>)
        requires
            self.wf(),
        ensures
            value_result_view(r) == match tok(self.toks(), self.position()) {
                TokenV::Plain(Token::True) => Ok(ValueV::Boolean(true)),
                TokenV::Plain(Token::False) => Ok(ValueV::Boolean(false)),
                t => Err(ErrorV::ExpectedBooleanToken(t)),
            },
    {
        match self.cur() {
            Token::True => Ok(Value::Boolean(true)),
            Token::False => Ok(Value::Boolean(false)),
            t => Err(ParserError::ExpectedBooleanToken(t.duplicate())),
        }
    }

    /// The sort production has no grammar rule yet.
    #[allow(dead_code)]
    fn parse_sort(&self) -> (r: Result<Query, ParserError>)
        ensures
            result_view(r) == Err::<QueryV, ErrorV>(ErrorV::NotImplemented("sort"@)),
    {
        Err(ParserError::NotImplemented(String::from_str("sort")))
    }

    fn expect_peek(&mut self, want: &Token) -> (r: Result<(), ParserError>)
        requires
            old(self).wf(),
        ensures
            final(self).wf(),
            final(self).toks() == old(self).toks(),
            final(self).source() == old(self).source(),
            tok(old(self).toks(), old(self).position() + 1) == want.view() ==> (r is Ok
                && final(self).position() == if old(self).position() < old(self).toks().len() {
                old(self).position() + 1
            } else {
                old(self).position()
            }),
            tok(old(self).toks(), old(self).position() + 1) != want.view() ==> (r matches Err(e)
                && e.view() == missing(*want, tok(old(self).toks(), old(self).position() + 1))
                && final(self).position() == old(self).position()),
    {
        let found = self.peek();
        if !found.same_as(want) {
            let t = found.duplicate();
            return Err(
                match want {
                    Token::Lparen => ParserError::ExpectedLparen(t),
                    Token::Rparen => ParserError::ExpectedRparen(t),
                    _ => ParserError::ExpectedComma(t),
                },
            );
        }
        self.next_token();
        Ok(())
    }

    /// Moves to the next token; past the end the stream stays at `Eof`.
    fn next_token(&mut self)
        requires
            old(self).wf(),
        ensures
            final(self).wf(),
            final(self).toks() == old(self).toks(),
            final(self).source() == old(self).source(),
            final(self).position() == if old(self).position() < old(self).toks().len() {
                old(self).position() + 1
            } else {
                old(self).position()
            },
    {
        if self.index < self.tokens.len() {
            self.index = self.index + 1;
        }
    }
}

} // verus!
