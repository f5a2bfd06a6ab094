use rql_parser::ast::{FloatOrder, Scalar, Value};

fn integer(n: i64) -> Scalar {
    Scalar::Integer(n)
}

fn text(s: &str) -> Scalar {
    Scalar::Text(s.to_string())
}

fn boolean(b: bool) -> Scalar {
    Scalar::Boolean(b)
}

fn ordered(o: FloatOrder) -> Scalar {
    Scalar::Float(o)
}

#[test]
fn integer_order_both_ways() {
    let lit = Value::IntegerLiteral(100);
    for (c, gt, lt, ge, le) in [
        (101, true, false, true, false),
        (100, false, false, true, true),
        (99, false, true, false, true),
    ] {
        assert_eq!(lit.gt(&integer(c)), gt, "gt {}", c);
        assert_eq!(lit.lt(&integer(c)), lt, "lt {}", c);
        assert_eq!(lit.ge(&integer(c)), ge, "ge {}", c);
        assert_eq!(lit.le(&integer(c)), le, "le {}", c);
    }
    assert!(Value::IntegerLiteral(i64::MIN).lt(&integer(i64::MIN)) == false);
    assert!(Value::IntegerLiteral(i64::MIN).gt(&integer(i64::MAX)));
}

#[test]
fn integer_equality() {
    let lit = Value::IntegerLiteral(7);
    assert!(lit.eq(&integer(7)));
    assert!(!lit.ne(&integer(7)));
    assert!(lit.ne(&integer(8)));
    assert!(!lit.eq(&integer(8)));
}

#[test]
fn kind_mismatch_is_incomparable() {
    for lit in [
        Value::StringLiteral("7".to_string()),
        Value::Identifier("x".to_string()),
    ] {
        for c in [integer(7), boolean(true), ordered(FloatOrder::Equal)] {
            assert!(!lit.eq(&c));
            assert!(!lit.ne(&c));
        }
    }
    let lit = Value::Boolean(true);
    for c in [integer(1), text("true")] {
        assert!(!lit.eq(&c));
        assert!(!lit.ne(&c));
    }
    assert!(!Value::IntegerLiteral(1).eq(&text("1")));
    assert!(!Value::IntegerLiteral(1).ne(&text("1")));
}

#[test]
fn strings_and_booleans() {
    let lit = Value::StringLiteral("abc".to_string());
    assert!(lit.eq(&text("abc")));
    assert!(lit.ne(&text("abd")));
    assert!(!lit.lt(&text("abd")));
    assert!(!lit.ge(&text("abc")));
    let ident = Value::Identifier("foo".to_string());
    assert!(ident.eq(&text("foo")));
    let lit = Value::Boolean(false);
    assert!(lit.eq(&boolean(false)));
    assert!(lit.ne(&boolean(true)));
    assert!(!lit.gt(&boolean(true)));
}

#[test]
fn float_literal_follows_the_order() {
    let lit = Value::FloatLiteral("60.0".to_string());
    let below = ordered(FloatOrder::Less);
    let same = ordered(FloatOrder::Equal);
    let above = ordered(FloatOrder::Greater);
    assert!(lit.lt(&below) && lit.le(&below) && !lit.gt(&below) && !lit.ge(&below));
    assert!(!lit.lt(&same) && lit.le(&same) && lit.ge(&same) && lit.eq(&same) && !lit.ne(&same));
    assert!(lit.gt(&above) && lit.ge(&above) && lit.ne(&above) && !lit.eq(&above));
    let nan = ordered(FloatOrder::Unordered);
    assert!(!lit.lt(&nan) && !lit.le(&nan) && !lit.gt(&nan) && !lit.ge(&nan) && !lit.eq(&nan));
    assert!(lit.ne(&nan));
    assert!(!lit.eq(&text("60.0")));
}

#[test]
fn float_literal_against_integer_is_incomparable() {
    let lit = Value::FloatLiteral("100.0".to_string());
    for c in [integer(100), integer(99), integer(101)] {
        assert!(!lit.eq(&c) && !lit.ne(&c));
        assert!(!lit.lt(&c) && !lit.le(&c) && !lit.gt(&c) && !lit.ge(&c));
    }
}

#[test]
fn integer_literal_against_float_is_incomparable() {
    let lit = Value::IntegerLiteral(100);
    for o in [FloatOrder::Less, FloatOrder::Equal, FloatOrder::Greater] {
        let c = ordered(o);
        assert!(!lit.eq(&c) && !lit.ne(&c));
        assert!(!lit.lt(&c) && !lit.le(&c) && !lit.gt(&c) && !lit.ge(&c));
    }
}

#[test]
fn other_kinds_are_incomparable() {
    for lit in [
        Value::StringLiteral("a".to_string()),
        Value::IntegerLiteral(1),
        Value::FloatLiteral("1.0".to_string()),
        Value::Boolean(true),
    ] {
        assert!(!lit.eq(&Scalar::Other) && !lit.ne(&Scalar::Other));
        assert!(!lit.lt(&Scalar::Other) && !lit.ge(&Scalar::Other));
    }
}
