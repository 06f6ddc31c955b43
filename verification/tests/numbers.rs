use exacting::host::is_finite_bits;
use exacting::{
    convert, convert_number, parse_and_convert, parse_strict, ConversionError, Error, HostObject,
    Mode, Number, TreeNode,
};

fn float(x: f64) -> HostObject {
    HostObject::Float(x.to_bits())
}

#[test]
fn integer_literal_becomes_an_integer() {
    assert_eq!(parse_and_convert("5", Mode::Strict), Ok(HostObject::Int(5)));
    assert_eq!(parse_and_convert("5", Mode::Relaxed), Ok(HostObject::Int(5)));
}

#[test]
fn literal_with_a_decimal_point_becomes_a_float() {
    assert_eq!(parse_and_convert("5.0", Mode::Strict), Ok(float(5.0)));
    assert_eq!(parse_and_convert("5.0", Mode::Relaxed), Ok(float(5.0)));
}

#[test]
fn literal_with_an_exponent_becomes_a_float() {
    assert_eq!(parse_and_convert("5e2", Mode::Strict), Ok(float(500.0)));
    assert_eq!(parse_and_convert("1E2", Mode::Strict), Ok(float(100.0)));
    assert_eq!(parse_and_convert("5e2", Mode::Relaxed), Ok(float(500.0)));
}

#[test]
fn fraction_keeps_its_value() {
    assert_eq!(parse_and_convert("0.1", Mode::Strict), Ok(float(0.1)));
    assert_eq!(parse_and_convert("-2.5", Mode::Strict), Ok(float(-2.5)));
    assert_eq!(parse_and_convert("1.5e-3", Mode::Strict), Ok(float(0.0015)));
}

#[test]
fn negative_and_zero_integers() {
    assert_eq!(parse_and_convert("0", Mode::Strict), Ok(HostObject::Int(0)));
    assert_eq!(parse_and_convert("-17", Mode::Strict), Ok(HostObject::Int(-17)));
}

#[test]
fn integers_at_the_ends_of_the_range() {
    assert_eq!(
        parse_and_convert("9223372036854775807", Mode::Strict),
        Ok(HostObject::Int(i64::MAX))
    );
    assert_eq!(
        parse_and_convert("-9223372036854775808", Mode::Strict),
        Ok(HostObject::Int(i64::MIN))
    );
}

#[test]
fn integer_just_above_the_range_is_a_numeric_error() {
    assert_eq!(
        parse_and_convert("9223372036854775808", Mode::Strict),
        Err(Error::Conversion(ConversionError::Numeric))
    );
    assert_eq!(
        parse_and_convert("18446744073709551615", Mode::Strict),
        Err(Error::Conversion(ConversionError::Numeric))
    );
}

#[test]
fn integer_above_the_range_inside_a_container_fails_the_whole_text() {
    assert_eq!(
        parse_and_convert("[1, 9223372036854775808, 3]", Mode::Strict),
        Err(Error::Conversion(ConversionError::Numeric))
    );
    assert_eq!(
        parse_and_convert("{\"a\": 1, \"b\": {\"c\": 18446744073709551615}}", Mode::Strict),
        Err(Error::Conversion(ConversionError::Numeric))
    );
}

#[test]
fn strict_grammar_tags_an_unsigned_integer_as_written_without_fraction() {
    let tree = parse_strict("18446744073709551615").unwrap();
    assert_eq!(
        tree,
        TreeNode::Number(Some(Number { fractional: false, integer: None, float: None }))
    );
    let tree = parse_strict("9223372036854775808").unwrap();
    assert_eq!(
        tree,
        TreeNode::Number(Some(Number {
            fractional: false,
            integer: None,
            float: Some(9223372036854775808.0f64.to_bits()),
        }))
    );
}

#[test]
fn strict_grammar_hands_a_magnitude_beyond_64_bits_on_as_a_double() {
    let tree = parse_strict("100000000000000000000000000000").unwrap();
    assert_eq!(
        tree,
        TreeNode::Number(Some(Number {
            fractional: true,
            integer: None,
            float: Some(1e29f64.to_bits()),
        }))
    );
    assert_eq!(convert(&tree), Ok(float(1e29)));
}

#[test]
fn number_tree_of_an_integer_literal() {
    assert_eq!(
        parse_strict("5").unwrap(),
        TreeNode::Number(Some(Number {
            fractional: false,
            integer: Some(5),
            float: Some(5.0f64.to_bits()),
        }))
    );
}

#[test]
fn number_tree_of_a_fraction_literal_with_a_whole_value() {
    assert_eq!(
        parse_strict("5.0").unwrap(),
        TreeNode::Number(Some(Number {
            fractional: true,
            integer: Some(5),
            float: Some(5.0f64.to_bits()),
        }))
    );
}

#[test]
fn number_tree_of_a_large_integer_that_is_no_double() {
    assert_eq!(
        parse_strict("123456789012345678").unwrap(),
        TreeNode::Number(Some(Number {
            fractional: false,
            integer: Some(123456789012345678),
            float: None,
        }))
    );
}

#[test]
fn the_flag_decides_and_not_the_value() {
    let whole = 5.0f64.to_bits();
    let written_as_fraction = Number { fractional: true, integer: Some(5), float: Some(whole) };
    let written_as_integer = Number { fractional: false, integer: Some(5), float: Some(whole) };
    assert_eq!(convert_number(&written_as_fraction), Ok(HostObject::Float(whole)));
    assert_eq!(convert_number(&written_as_integer), Ok(HostObject::Int(5)));
    assert_eq!(
        convert(&TreeNode::Number(Some(written_as_fraction))),
        Ok(HostObject::Float(whole))
    );
    assert_eq!(convert(&TreeNode::Number(Some(written_as_integer))), Ok(HostObject::Int(5)));
}

#[test]
fn integer_without_an_integer_magnitude_is_not_turned_into_a_float() {
    let n = Number { fractional: false, integer: None, float: Some(1e30f64.to_bits()) };
    assert_eq!(convert_number(&n), Err(ConversionError::Numeric));
    assert_eq!(convert(&TreeNode::Number(Some(n))), Err(ConversionError::Numeric));
}

#[test]
fn fraction_without_a_float_magnitude_is_not_turned_into_an_integer() {
    let n = Number { fractional: true, integer: Some(7), float: None };
    assert_eq!(convert_number(&n), Err(ConversionError::Numeric));
}

#[test]
fn fraction_that_is_not_finite_is_a_numeric_error() {
    for x in [f64::INFINITY, f64::NEG_INFINITY, f64::NAN] {
        let n = Number { fractional: true, integer: None, float: Some(x.to_bits()) };
        assert_eq!(convert_number(&n), Err(ConversionError::Numeric));
    }
}

#[test]
fn finite_bit_patterns_are_told_from_the_others() {
    assert!(is_finite_bits(0.0f64.to_bits()));
    assert!(is_finite_bits((-0.0f64).to_bits()));
    assert!(is_finite_bits(f64::MAX.to_bits()));
    assert!(is_finite_bits(f64::MIN.to_bits()));
    assert!(is_finite_bits(f64::MIN_POSITIVE.to_bits()));
    assert!(is_finite_bits(1u64));
    assert!(!is_finite_bits(f64::INFINITY.to_bits()));
    assert!(!is_finite_bits(f64::NEG_INFINITY.to_bits()));
    assert!(!is_finite_bits(f64::NAN.to_bits()));
    assert!(!is_finite_bits(u64::MAX));
    assert!(!is_finite_bits(0x7ff0_0000_0000_0001));
    assert!(is_finite_bits(0x7fef_ffff_ffff_ffff));
}

#[test]
fn relaxed_number_forms() {
    assert_eq!(parse_and_convert("0x10", Mode::Relaxed), Ok(HostObject::Int(16)));
    assert_eq!(parse_and_convert("+1", Mode::Relaxed), Ok(HostObject::Int(1)));
    assert_eq!(parse_and_convert(".5", Mode::Relaxed), Ok(float(0.5)));
    assert!(matches!(parse_and_convert("0x10", Mode::Strict), Err(Error::Parse(_))));
    assert!(matches!(parse_and_convert("+1", Mode::Strict), Err(Error::Parse(_))));
    assert!(matches!(parse_and_convert(".5", Mode::Strict), Err(Error::Parse(_))));
}
