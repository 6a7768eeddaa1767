use tabscript::ast::{Atom, Real};
use tabscript::number::{parse_number, NumberParseError};

fn value(r: &Real) -> f64 {
    let n = r.whole as f64 + (r.fraction as f64 / r.scale as f64);
    if r.negative {
        -n
    } else {
        n
    }
}

#[test]
fn ast_number() {
    assert_eq!(parse_number("0"), Ok(Atom::Integer(0)));
    assert_eq!(parse_number("32"), Ok(Atom::Integer(32)));
    match parse_number("0.0") {
        Ok(Atom::Real(r)) => assert_eq!(value(&r), 0.0),
        r => panic!("{:?}", r),
    }
    match parse_number("13.37") {
        Ok(Atom::Real(f)) => assert!((value(&f) - 13.37).abs() <= f64::EPSILON * 13.37),
        r => panic!("{:?}", r),
    }
    assert_eq!(parse_number("."), Err(NumberParseError::SeparatorInWrongPosition));
    assert_eq!(parse_number("0."), Err(NumberParseError::SeparatorInWrongPosition));
    assert_eq!(parse_number(".0"), Err(NumberParseError::SeparatorInWrongPosition));
}

#[test]
fn numbers_in_other_bases() {
    assert_eq!(parse_number("0b1010"), Ok(Atom::Integer(10)));
    assert_eq!(parse_number("0x1F"), Ok(Atom::Integer(31)));
    assert_eq!(parse_number("0o17"), Ok(Atom::Integer(15)));
    assert_eq!(parse_number("1_000_000"), Ok(Atom::Integer(1_000_000)));
    assert_eq!(parse_number("-12"), Ok(Atom::Integer(-12)));
}

#[test]
fn exact_parts_of_a_real() {
    assert_eq!(
        parse_number("2.5"),
        Ok(Atom::Real(Real { negative: false, whole: 2, fraction: 50, scale: 100 }))
    );
    assert_eq!(
        parse_number("-0.25"),
        Ok(Atom::Real(Real { negative: true, whole: 0, fraction: 250, scale: 1000 }))
    );
}

#[test]
fn number_errors() {
    assert_eq!(parse_number(""), Err(NumberParseError::Empty));
    assert_eq!(parse_number("01"), Err(NumberParseError::InvalidBase));
    assert_eq!(parse_number("12a"), Err(NumberParseError::InvalidDigit));
    assert_eq!(parse_number("0b12"), Err(NumberParseError::InvalidDigit));
    assert_eq!(parse_number("1.2.3"), Err(NumberParseError::InvalidDigit));
    assert_eq!(
        parse_number("99999999999999999999999999999999"),
        Err(NumberParseError::Overflow)
    );
    assert_eq!(
        parse_number("99999999999999999999999999999999.5"),
        Err(NumberParseError::Overflow)
    );
}
