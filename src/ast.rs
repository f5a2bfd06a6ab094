use vstd::prelude::*;

verus! {

/// A parsed query.
#[derive(Debug, PartialEq)]
pub enum Query {
    And(Vec<Query>),
    Or(Vec<Query>),
    Sort(Prefix, Value),
    Filter(Infix, Value, Value),
    Empty,
}

/// A literal operand. A float literal is held as its decimal source text
/// (digits, a dot, digits); its conversion to a binary float is left to the
/// caller.
#[derive(Clone, Debug, PartialEq, Eq)]
pub enum Value {
    Identifier(String),
    IntegerLiteral(i64),
    FloatLiteral(String),
    StringLiteral(String),
    Boolean(bool),
}

#[derive(Clone, Copy, Debug, PartialEq, Eq, Structural)]
pub enum Infix {
    Eq,
    NotEq,
    Le,
    Ge,
    Lt,
    Gt,
}

#[derive(Clone, Copy, Debug, PartialEq, Eq, Structural)]
pub enum Prefix {
    Plus,
    Minus,
}

/// The mathematical value of a `Value`.
pub enum ValueV {
    Identifier(Seq<char>),
    IntegerLiteral(i64),
    FloatLiteral(Seq<char>),
    StringLiteral(Seq<char>),
    Boolean(bool),
}

/// The mathematical value of a `Query`: a tree whose lists are sequences.
pub enum QueryV {
    And(Seq<QueryV>),
    Or(Seq<QueryV>),
    Sort(Prefix, ValueV),
    Filter(Infix, ValueV, ValueV),
    Empty,
}

/// The decimal digits of a natural number, most significant first.
pub open spec fn nat_text(n: nat) -> Seq<char>
    decreases n,
{
    let d = (('0' as u32) + (n % 10) as u32) as char;
    if n < 10 {
        seq![d]
    } else {
        nat_text(n / 10).push(d)
    }
}

/// An integer in decimal, with a leading `-` when negative.
pub open spec fn int_text(n: int) -> Seq<char> {
    if n < 0 {
        seq!['-'] + nat_text((-n) as nat)
    } else {
        nat_text(n as nat)
    }
}

/// Relies on `ToString` for `i64` (its `Display`): the number in decimal.
#[verifier::external_body]
fn i64_text(n: i64) -> (r: String)
    ensures
        r@ == int_text(n as int),
{
    n.to_string()
}

/// How a literal is written out: a string in double quotes, an identifier
/// bare, a number in decimal (a float as its source text), a boolean as
/// `true` or `false`.
pub open spec fn value_text(v: ValueV) -> Seq<char> {
    match v {
        ValueV::StringLiteral(s) => "\""@ + s + "\""@,
        ValueV::Identifier(s) => s,
        ValueV::IntegerLiteral(n) => int_text(n as int),
        ValueV::FloatLiteral(s) => s,
        ValueV::Boolean(b) => if b {
            "true"@
        } else {
            "false"@
        },
    }
}

pub open spec fn infix_symbol(op: Infix) -> Seq<char> {
    match op {
        Infix::NotEq => "!="@,
        Infix::Eq => "="@,
        Infix::Le => "<="@,
        Infix::Ge => ">="@,
        Infix::Lt => "<"@,
        Infix::Gt => ">"@,
    }
}

impl Infix {
    /// The comparator's symbol: `=`, `!=`, `<=`, `>=`, `<` or `>`.
    pub fn symbol(&self) -> (r: &'static str)
        ensures
            r@ == infix_symbol(*self),
    {
        match self {
            Infix::NotEq => "!=",
            Infix::Eq => "=",
            Infix::Le => "<=",
            Infix::Ge => ">=",
            Infix::Lt => "<",
            Infix::Gt => ">",
        }
    }
}

impl Prefix {
    /// The marker's name.
    pub fn name(&self) -> (r: &'static str)
        ensures
            r@ == (if *self is Plus {
                "Plus"@
            } else {
                "Minus"@
            }),
    {
        match self {
            Prefix::Plus => "Plus",
            Prefix::Minus => "Minus",
        }
    }
}

impl Value {
    pub fn to_text(&self) -> (r: String)
        ensures
            r@ == value_text(self.view()),
    {
        match self {
            Value::StringLiteral(s) => {
                let mut r = String::from_str("\"");
                r.append(s.as_str());
                r.append("\"");
                r
            },
            Value::Identifier(s) => s.clone(),
            Value::IntegerLiteral(n) => i64_text(*n),
            Value::FloatLiteral(s) => s.clone(),
            Value::Boolean(b) => if *b {
                String::from_str("true")
            } else {
                String::from_str("false")
            },
        }
    }

    pub open spec fn view(self) -> ValueV {
        match self {
            Value::Identifier(s) => ValueV::Identifier(s@),
            Value::IntegerLiteral(n) => ValueV::IntegerLiteral(n),
            Value::FloatLiteral(s) => ValueV::FloatLiteral(s@),
            Value::StringLiteral(s) => ValueV::StringLiteral(s@),
            Value::Boolean(b) => ValueV::Boolean(b),
        }
    }
}

pub open spec fn query_views(qs: Seq<Query>) -> Seq<QueryV> {
    qs.map_values(|q: Query| q.view())
}

/// The lists of `And` and `Or` view as the views of their elements.
pub proof fn lemma_list_views(v: Vec<Query>)
    ensures
        Query::And(v).view() == QueryV::And(query_views(v@)),
        Query::Or(v).view() == QueryV::Or(query_views(v@)),
{
    assert(Query::And(v).view()->And_0 =~= query_views(v@));
    assert(Query::Or(v).view()->Or_0 =~= query_views(v@));
}

impl Query {
    pub open spec fn view(self) -> QueryV
        decreases self,
    {
        match self {
            Query::And(v) => QueryV::And(
                Seq::new(v.len() as nat, |i: int| if 0 <= i < v.len() { v[i].view() } else { QueryV::Empty }),
            ),
            Query::Or(v) => QueryV::Or(
                Seq::new(v.len() as nat, |i: int| if 0 <= i < v.len() { v[i].view() } else { QueryV::Empty }),
            ),
            Query::Sort(p, x) => QueryV::Sort(p, x.view()),
            Query::Filter(op, l, r) => QueryV::Filter(op, l.view(), r.view()),
            Query::Empty => QueryV::Empty,
        }
    }

    pub fn is_none(&self) -> (r: bool)
        ensures
            r == (self is Empty),
    {
        match self {
            Query::Empty => true,
            _ => false,
        }
    }
}

/// How one float value orders against another, as IEEE 754 compares them.
#[derive(Clone, Copy, Debug, PartialEq, Eq, Structural)]
pub enum FloatOrder {
    Less,
    Equal,
    Greater,
    Unordered,
}

/// An externally supplied scalar, of exactly one kind: a string, an integer
/// that fits 64 signed bits, a float, a boolean, or anything else. A float
/// is seen through how it orders against the float literal it is compared
/// with.
#[derive(Clone, Debug, PartialEq, Eq)]
pub enum Scalar {
    Text(String),
    Integer(i64),
    Float(FloatOrder),
    Boolean(bool),
    Other,
}

/// Whether the candidate equals the literal; false when their kinds differ.
pub open spec fn holds_eq(v: ValueV, c: Scalar) -> bool {
    match v {
        ValueV::StringLiteral(s) => c matches Scalar::Text(t) && t@ == s,
        ValueV::Identifier(s) => c matches Scalar::Text(t) && t@ == s,
        ValueV::IntegerLiteral(n) => c == Scalar::Integer(n),
        ValueV::FloatLiteral(_) => c == Scalar::Float(FloatOrder::Equal),
        ValueV::Boolean(b) => c == Scalar::Boolean(b),
    }
}

/// Whether the candidate differs from the literal; false when their kinds differ.
pub open spec fn holds_ne(v: ValueV, c: Scalar) -> bool {
    match v {
        ValueV::StringLiteral(s) => c matches Scalar::Text(t) && t@ != s,
        ValueV::Identifier(s) => c matches Scalar::Text(t) && t@ != s,
        ValueV::IntegerLiteral(n) => c matches Scalar::Integer(k) && k != n,
        ValueV::FloatLiteral(_) => c matches Scalar::Float(o) && o != FloatOrder::Equal,
        ValueV::Boolean(b) => c matches Scalar::Boolean(x) && x != b,
    }
}

/// Whether `candidate < literal`; only numbers of the same kind are ordered.
pub open spec fn holds_lt(v: ValueV, c: Scalar) -> bool {
    match v {
        ValueV::IntegerLiteral(n) => c matches Scalar::Integer(k) && k < n,
        ValueV::FloatLiteral(_) => c == Scalar::Float(FloatOrder::Less),
        _ => false,
    }
}

/// Whether `candidate <= literal`; only numbers of the same kind are ordered.
pub open spec fn holds_le(v: ValueV, c: Scalar) -> bool {
    match v {
        ValueV::IntegerLiteral(n) => c matches Scalar::Integer(k) && k <= n,
        ValueV::FloatLiteral(_) => c == Scalar::Float(FloatOrder::Less) || c == Scalar::Float(
            FloatOrder::Equal,
        ),
        _ => false,
    }
}

/// Whether `candidate > literal`; only numbers of the same kind are ordered.
pub open spec fn holds_gt(v: ValueV, c: Scalar) -> bool {
    match v {
        ValueV::IntegerLiteral(n) => c matches Scalar::Integer(k) && k > n,
        ValueV::FloatLiteral(_) => c == Scalar::Float(FloatOrder::Greater),
        _ => false,
    }
}

/// Whether `candidate >= literal`; only numbers of the same kind are ordered.
pub open spec fn holds_ge(v: ValueV, c: Scalar) -> bool {
    match v {
        ValueV::IntegerLiteral(n) => c matches Scalar::Integer(k) && k >= n,
        ValueV::FloatLiteral(_) => c == Scalar::Float(FloatOrder::Greater) || c == Scalar::Float(
            FloatOrder::Equal,
        ),
        _ => false,
    }
}

impl Value {
    pub fn eq(&self, comparison: &Scalar) -> (r: bool)
        ensures
            r == holds_eq(self.view(), *comparison),
    {
        match (self, comparison) {
            (Value::StringLiteral(s), Scalar::Text(t)) => *t == *s,
            (Value::Identifier(s), Scalar::Text(t)) => *t == *s,
            (Value::IntegerLiteral(n), Scalar::Integer(k)) => *k == *n,
            (Value::FloatLiteral(_), Scalar::Float(FloatOrder::Equal)) => true,
            (Value::Boolean(b), Scalar::Boolean(x)) => *x == *b,
            _ => false,
        }
    }

    pub fn ne(&self, comparison: &Scalar) -> (r: bool)
        ensures
            r == holds_ne(self.view(), *comparison),
    {
        match (self, comparison) {
            (Value::StringLiteral(s), Scalar::Text(t)) => !(*t == *s),
            (Value::Identifier(s), Scalar::Text(t)) => !(*t == *s),
            (Value::IntegerLiteral(n), Scalar::Integer(k)) => *k != *n,
            (Value::FloatLiteral(_), Scalar::Float(FloatOrder::Equal)) => false,
            (Value::FloatLiteral(_), Scalar::Float(_)) => true,
            (Value::Boolean(b), Scalar::Boolean(x)) => *x != *b,
            _ => false,
        }
    }

    pub fn lt(&self, comparison: &Scalar) -> (r: bool)
        ensures
            r == holds_lt(self.view(), *comparison),
    {
        match (self, comparison) {
            (Value::IntegerLiteral(n), Scalar::Integer(k)) => *n > *k,
            (Value::FloatLiteral(_), Scalar::Float(FloatOrder::Less)) => true,
            _ => false,
        }
    }

    pub fn le(&self, comparison: &Scalar) -> (r: bool)
        ensures
            r == holds_le(self.view(), *comparison),
    {
        match (self, comparison) {
            (Value::IntegerLiteral(n), Scalar::Integer(k)) => *n >= *k,
            (Value::FloatLiteral(_), Scalar::Float(FloatOrder::Less)) => true,
            (Value::FloatLiteral(_), Scalar::Float(FloatOrder::Equal)) => true,
            _ => false,
        }
    }

    pub fn gt(&self, comparison: &Scalar) -> (r: bool)
        ensures
            r == holds_gt(self.view(), *comparison),
    {
        match (self, comparison) {
            (Value::IntegerLiteral(n), Scalar::Integer(k)) => *n < *k,
            (Value::FloatLiteral(_), Scalar::Float(FloatOrder::Greater)) => true,
            _ => false,
        }
    }

    pub fn ge(&self, comparison: &Scalar) -> (r: bool)
        ensures
            r == holds_ge(self.view(), *comparison),
    {
        match (self, comparison) {
            (Value::IntegerLiteral(n), Scalar::Integer(k)) => *n <= *k,
            (Value::FloatLiteral(_), Scalar::Float(FloatOrder::Greater)) => true,
            (Value::FloatLiteral(_), Scalar::Float(FloatOrder::Equal)) => true,
            _ => false,
        }
    }
}

/// An integer literal orders against an integer candidate as the candidate
/// stands to it: `gt` holds iff `c > n`, `lt` iff `c < n`, `ge` iff `c >= n`,
/// `le` iff `c <= n`.
pub proof fn lemma_integer_order(n: i64, c: i64)
    ensures
        holds_gt(ValueV::IntegerLiteral(n), Scalar::Integer(c)) <==> c > n,
        holds_lt(ValueV::IntegerLiteral(n), Scalar::Integer(c)) <==> c < n,
        holds_ge(ValueV::IntegerLiteral(n), Scalar::Integer(c)) <==> c >= n,
        holds_le(ValueV::IntegerLiteral(n), Scalar::Integer(c)) <==> c <= n,
{
}

/// A string, identifier or boolean literal set against a candidate of
/// another kind is incomparable: both `eq` and `ne` are false.
pub proof fn lemma_kind_mismatch(v: ValueV, s: Scalar)
    requires
        ((v is StringLiteral || v is Identifier) && !(s is Text)) || (v is Boolean && !(s is Boolean)),
    ensures
        !holds_eq(v, s),
        !holds_ne(v, s),
{
}

} // verus!
