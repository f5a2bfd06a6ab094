use vstd::prelude::*;

verus! {

/// A lexical unit of the query language.
#[derive(Clone, Debug, PartialEq, Eq)]
pub enum Token {
    Illegal,
    Eof,
    // identifiers and literals, carried as their source text
    Ident(String),
    Int(String),
    Float(String),
    Str(String),
    True,
    False,
    // query words
    And,
    Or,
    Plus,
    Minus,
    Sort,
    Select,
    Values,
    Aggregate,
    Distinct,
    In,
    Out,
    Contains,
    Excludes,
    Limit,
    // comparators
    Eq,
    NotEq,
    Le,
    Ge,
    Lt,
    Gt,
    // punctuation
    Comma,
    Lparen,
    Rparen,
}

/// The mathematical value of a token: the four text-carrying kinds hold
/// their text as a sequence of characters, every other token stands as itself.
pub enum TokenV {
    Ident(Seq<char>),
    Int(Seq<char>),
    Float(Seq<char>),
    Str(Seq<char>),
    Plain(Token),
}

impl Token {
    pub open spec fn view(self) -> TokenV {
        match self {
            Token::Ident(s) => TokenV::Ident(s@),
            Token::Int(s) => TokenV::Int(s@),
            Token::Float(s) => TokenV::Float(s@),
            Token::Str(s) => TokenV::Str(s@),
            _ => TokenV::Plain(self),
        }
    }

    /// The token as it is written out; a string is put in double quotes,
    /// and a word with no grammar rule yet reads `not implemented`.
    pub fn to_text(&self) -> (r: String)
        ensures
            r@ == token_text(self.view()),
    {
        match self {
            Token::Ident(s) => s.clone(),
            Token::Int(s) => s.clone(),
            Token::Float(s) => s.clone(),
            Token::Str(s) => {
                let mut r = String::from_str("\"");
                r.append(s.as_str());
                r.append("\"");
                r
            },
            Token::Illegal => String::from_str("ILLEGAL"),
            Token::Eof => String::from_str("EOF"),
            Token::True => String::from_str("true"),
            Token::False => String::from_str("false"),
            Token::Plus => String::from_str("+"),
            Token::Minus => String::from_str("-"),
            Token::And => String::from_str("and"),
            Token::Or => String::from_str("or"),
            Token::Eq => String::from_str("eq"),
            Token::NotEq => String::from_str("ne"),
            Token::Le => String::from_str("le"),
            Token::Ge => String::from_str("ge"),
            Token::Lt => String::from_str("lt"),
            Token::Gt => String::from_str("gt"),
            Token::Comma => String::from_str(","),
            Token::Lparen => String::from_str("("),
            Token::Rparen => String::from_str(")"),
            _ => String::from_str("not implemented"),
        }
    }

    /// Whether two tokens are the same token, with the same text.
    pub fn same_as(&self, other: &Token) -> (r: bool)
        ensures
            r == (self.view() == other.view()),
    {
        match (self, other) {
            (Token::Ident(x), Token::Ident(y)) => *x == *y,
            (Token::Int(x), Token::Int(y)) => *x == *y,
            (Token::Float(x), Token::Float(y)) => *x == *y,
            (Token::Str(x), Token::Str(y)) => *x == *y,
            (Token::Illegal, Token::Illegal) => true,
            (Token::Eof, Token::Eof) => true,
            (Token::True, Token::True) => true,
            (Token::False, Token::False) => true,
            (Token::And, Token::And) => true,
            (Token::Or, Token::Or) => true,
            (Token::Plus, Token::Plus) => true,
            (Token::Minus, Token::Minus) => true,
            (Token::Sort, Token::Sort) => true,
            (Token::Select, Token::Select) => true,
            (Token::Values, Token::Values) => true,
            (Token::Aggregate, Token::Aggregate) => true,
            (Token::Distinct, Token::Distinct) => true,
            (Token::In, Token::In) => true,
            (Token::Out, Token::Out) => true,
            (Token::Contains, Token::Contains) => true,
            (Token::Excludes, Token::Excludes) => true,
            (Token::Limit, Token::Limit) => true,
            (Token::Eq, Token::Eq) => true,
            (Token::NotEq, Token::NotEq) => true,
            (Token::Le, Token::Le) => true,
            (Token::Ge, Token::Ge) => true,
            (Token::Lt, Token::Lt) => true,
            (Token::Gt, Token::Gt) => true,
            (Token::Comma, Token::Comma) => true,
            (Token::Lparen, Token::Lparen) => true,
            (Token::Rparen, Token::Rparen) => true,
            _ => false,
        }
    }

    /// A copy of the token with the same value.
    pub fn duplicate(&self) -> (r: Token)
        ensures
            r.view() == self.view(),
    {
        match self {
            Token::Ident(s) => Token::Ident(s.clone()),
            Token::Int(s) => Token::Int(s.clone()),
            Token::Float(s) => Token::Float(s.clone()),
            Token::Str(s) => Token::Str(s.clone()),
            Token::Illegal => Token::Illegal,
            Token::Eof => Token::Eof,
            Token::True => Token::True,
            Token::False => Token::False,
            Token::And => Token::And,
            Token::Or => Token::Or,
            Token::Plus => Token::Plus,
            Token::Minus => Token::Minus,
            Token::Sort => Token::Sort,
            Token::Select => Token::Select,
            Token::Values => Token::Values,
            Token::Aggregate => Token::Aggregate,
            Token::Distinct => Token::Distinct,
            Token::In => Token::In,
            Token::Out => Token::Out,
            Token::Contains => Token::Contains,
            Token::Excludes => Token::Excludes,
            Token::Limit => Token::Limit,
            Token::Eq => Token::Eq,
            Token::NotEq => Token::NotEq,
            Token::Le => Token::Le,
            Token::Ge => Token::Ge,
            Token::Lt => Token::Lt,
            Token::Gt => Token::Gt,
            Token::Comma => Token::Comma,
            Token::Lparen => Token::Lparen,
            Token::Rparen => Token::Rparen,
        }
    }
}

/// How a token is written out.
pub open spec fn token_text(t: TokenV) -> Seq<char> {
    match t {
        TokenV::Ident(x) => x,
        TokenV::Int(x) => x,
        TokenV::Float(x) => x,
        TokenV::Str(x) => "\""@ + x + "\""@,
        TokenV::Plain(p) => match p {
            Token::Illegal => "ILLEGAL"@,
            Token::Eof => "EOF"@,
            Token::True => "true"@,
            Token::False => "false"@,
            Token::Plus => "+"@,
            Token::Minus => "-"@,
            Token::And => "and"@,
            Token::Or => "or"@,
            Token::Eq => "eq"@,
            Token::NotEq => "ne"@,
            Token::Le => "le"@,
            Token::Ge => "ge"@,
            Token::Lt => "lt"@,
            Token::Gt => "gt"@,
            Token::Comma => ","@,
            Token::Lparen => "("@,
            Token::Rparen => ")"@,
            _ => "not implemented"@,
        },
    }
}

/// The keyword that a word spells, if it spells one.
pub open spec fn keyword(w: Seq<char>) -> Option<Token> {
    if w == "true"@ {
        Some(Token::True)
    } else if w == "false"@ {
        Some(Token::False)
    } else if w == "eq"@ {
        Some(Token::Eq)
    } else if w == "ne"@ {
        Some(Token::NotEq)
    } else if w == "le"@ {
        Some(Token::Le)
    } else if w == "ge"@ {
        Some(Token::Ge)
    } else if w == "lt"@ {
        Some(Token::Lt)
    } else if w == "gt"@ {
        Some(Token::Gt)
    } else if w == "and"@ {
        Some(Token::And)
    } else if w == "or"@ {
        Some(Token::Or)
    } else if w == "sort"@ {
        Some(Token::Sort)
    } else if w == "select"@ {
        Some(Token::Select)
    } else if w == "values"@ {
        Some(Token::Values)
    } else if w == "aggregate"@ {
        Some(Token::Aggregate)
    } else if w == "distinct"@ {
        Some(Token::Distinct)
    } else if w == "in"@ {
        Some(Token::In)
    } else if w == "out"@ {
        Some(Token::Out)
    } else if w == "contains"@ {
        Some(Token::Contains)
    } else if w == "excludes"@ {
        Some(Token::Excludes)
    } else if w == "limit"@ {
        Some(Token::Limit)
    } else {
        None
    }
}

/// The token that a word lexes to: its keyword, or else an identifier.
pub open spec fn word_token(w: Seq<char>) -> TokenV {
    match keyword(w) {
        Some(t) => TokenV::Plain(t),
        None => TokenV::Ident(w),
    }
}

/// Whether the characters `v` spell the word `w`.
fn spells(v: &Vec<char>, w: &str) -> (r: bool)
    ensures
        r == (v@ == w@),
{
    let n = w.unicode_len();
    if v.len() != n {
        return false;
    }
    let mut i: usize = 0;
    while i < n
        invariant
            n == w@.len(),
            v@.len() == n,
            i <= n,
            forall|j: int| 0 <= j < i ==> v@[j] == w@[j],
        decreases n - i,
    {
        if v[i] != w.get_char(i) {
            return false;
        }
        i = i + 1;
    }
    assert(v@ =~= w@);
    true
}

/// The characters of a string, in order.
pub(crate) fn chars_of(s: &str) -> (r: Vec<char>)
    ensures
        r@ == s@,
{
    let n = s.unicode_len();
    let mut v: Vec<char> = Vec::new();
    let mut i: usize = 0;
    while i < n
        invariant
            n == s@.len(),
            i <= n,
            v@ == s@.take(i as int),
        decreases n - i,
    {
        v.push(s.get_char(i));
        i = i + 1;
        assert(v@ =~= s@.take(i as int));
    }
    assert(v@ =~= s@);
    v
}

fn keyword_to_token(w: &Vec<char>) -> (r: Option<Token>)
    ensures
        r == keyword(w@),
{
    if spells(w, "true") {
        Some(Token::True)
    } else if spells(w, "false") {
        Some(Token::False)
    } else if spells(w, "eq") {
        Some(Token::Eq)
    } else if spells(w, "ne") {
        Some(Token::NotEq)
    } else if spells(w, "le") {
        Some(Token::Le)
    } else if spells(w, "ge") {
        Some(Token::Ge)
    } else if spells(w, "lt") {
        Some(Token::Lt)
    } else if spells(w, "gt") {
        Some(Token::Gt)
    } else if spells(w, "and") {
        Some(Token::And)
    } else if spells(w, "or") {
        Some(Token::Or)
    } else if spells(w, "sort") {
        Some(Token::Sort)
    } else if spells(w, "select") {
        Some(Token::Select)
    } else if spells(w, "values") {
        Some(Token::Values)
    } else if spells(w, "aggregate") {
        Some(Token::Aggregate)
    } else if spells(w, "distinct") {
        Some(Token::Distinct)
    } else if spells(w, "in") {
        Some(Token::In)
    } else if spells(w, "out") {
        Some(Token::Out)
    } else if spells(w, "contains") {
        Some(Token::Contains)
    } else if spells(w, "excludes") {
        Some(Token::Excludes)
    } else if spells(w, "limit") {
        Some(Token::Limit)
    } else {
        None
    }
}

/// The token for a word: the keyword it spells, or an identifier holding it.
pub fn lookup_ident(ident: &str) -> (r: Token)
    ensures
        r.view() == word_token(ident@),
{
    let w = chars_of(ident);
    match keyword_to_token(&w) {
        Some(t) => t,
        None => Token::Ident(ident.to_owned()),
    }
}

} // verus!
