use turnip_rs::values::parse_number_literal;
use turnip_rs::values::string_cmp;
use turnip_rs::values::type_value_eq;
use turnip_rs::values::type_value_partial_cmp;
use turnip_rs::values::NumberValueType;
use turnip_rs::values::StringTypeValue;
use turnip_rs::values::TypeValue;
use turnip_rs::values::ValueOrdering;

fn num(n: u64) -> TypeValue {
    TypeValue::NumberValueType(NumberValueType::from_u64(n))
}

fn text(s: &str) -> TypeValue {
    TypeValue::StringTypeValue(StringTypeValue { value: s.to_string() })
}

fn parsed(s: &str) -> NumberValueType {
    parse_number_literal(s).expect("literal should parse")
}

#[test]
fn differing_variants_never_equal_never_ordered() {
    let pairs = [
        (num(1), text("1")),
        (num(0), TypeValue::NullValueType),
        (text(""), TypeValue::NullValueType),
    ];
    for (a, b) in pairs.iter() {
        assert!(!type_value_eq(a, b));
        assert!(!type_value_eq(b, a));
        assert_eq!(type_value_partial_cmp(a, b), None);
        assert_eq!(type_value_partial_cmp(b, a), None);
    }
}

#[test]
fn null_equals_null_but_has_no_order() {
    assert!(type_value_eq(&TypeValue::NullValueType, &TypeValue::NullValueType));
    assert_eq!(
        type_value_partial_cmp(&TypeValue::NullValueType, &TypeValue::NullValueType),
        None
    );
}

#[test]
fn numbers_compare_by_value() {
    assert_eq!(parsed("1.5").compare(&parsed("1.50")), ValueOrdering::Equal);
    assert_eq!(parsed("1.5").compare(&parsed("1.05")), ValueOrdering::Greater);
    assert_eq!(parsed("-2").compare(&parsed("1")), ValueOrdering::Less);
    assert_eq!(parsed("-0").compare(&parsed("0")), ValueOrdering::Equal);
    assert_eq!(parsed("-1.5").compare(&parsed("-1.4")), ValueOrdering::Less);
    assert_eq!(parsed("10").compare(&parsed("9.999")), ValueOrdering::Greater);
    assert_eq!(parsed("0.5").compare(&parsed(".5")), ValueOrdering::Equal);
    assert_eq!(parsed("5.").compare(&parsed("5")), ValueOrdering::Equal);
    assert!(type_value_eq(
        &TypeValue::NumberValueType(parsed("2.0")),
        &TypeValue::NumberValueType(parsed("2"))
    ));
}

#[test]
fn number_literal_grammar() {
    assert!(parse_number_literal("0").is_some());
    assert!(parse_number_literal("+7").is_some());
    assert!(parse_number_literal("-3.25").is_some());
    assert!(parse_number_literal("18446744073709551615").is_some());

    assert!(parse_number_literal("").is_none());
    assert!(parse_number_literal(".").is_none());
    assert!(parse_number_literal("-").is_none());
    assert!(parse_number_literal("1.2.3").is_none());
    assert!(parse_number_literal("12a").is_none());
    assert!(parse_number_literal("1e5").is_none());
    assert!(parse_number_literal(" 1").is_none());
    // one past the largest mantissa that fits
    assert!(parse_number_literal("18446744073709551616").is_none());
    // a nineteenth fractional digit is beyond the largest scale
    assert!(parse_number_literal("0.0000000000000000001").is_none());
}

#[test]
fn parsed_number_parts() {
    let n = parsed("-12.50");
    assert!(n.is_negative());
    assert_eq!(n.mantissa(), 1250);
    assert_eq!(n.scale(), 2);
    let z = parsed("007");
    assert_eq!(z.mantissa(), 7);
    assert_eq!(z.scale(), 0);
}

#[test]
fn from_parts_bounds_the_scale() {
    assert!(NumberValueType::from_parts(false, 1, 18).is_some());
    assert!(NumberValueType::from_parts(false, 1, 19).is_none());
}

#[test]
fn strings_order_lexicographically() {
    assert_eq!(
        string_cmp(&"a".to_string(), &"b".to_string()),
        ValueOrdering::Less
    );
    assert_eq!(
        string_cmp(&"b".to_string(), &"ab".to_string()),
        ValueOrdering::Greater
    );
    assert_eq!(
        string_cmp(&"ab".to_string(), &"abc".to_string()),
        ValueOrdering::Less
    );
    assert_eq!(
        string_cmp(&"abc".to_string(), &"abc".to_string()),
        ValueOrdering::Equal
    );
    assert_eq!(
        string_cmp(&"".to_string(), &"a".to_string()),
        ValueOrdering::Less
    );
    assert_eq!(
        type_value_partial_cmp(&text("alpha"), &text("beta")),
        Some(ValueOrdering::Less)
    );
    assert!(type_value_eq(&text("same"), &text("same")));
    assert!(!type_value_eq(&text("same"), &text("other")));
}
