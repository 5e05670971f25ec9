use rule_builder::numeric::{is_numeric_literal, operators_for_value};
use rule_builder::tree::Operand;
use rule_builder::vocab::{
    Field, LogicalOperator, Operator, ValueInputKind, operators_for, value_input_kind,
};

fn numeric_set() -> Vec<Operator> {
    vec![
        Operator::Equals,
        Operator::NotEquals,
        Operator::GreaterThan,
        Operator::LessThan,
        Operator::GreaterThanOrEqual,
        Operator::LessThanOrEqual,
    ]
}

fn string_set() -> Vec<Operator> {
    vec![Operator::Equals, Operator::NotEquals, Operator::Contains, Operator::In]
}

#[test]
fn numeric_fields_get_the_six_comparison_operators() {
    for f in [
        Field::TransactionAmount,
        Field::UserAge,
        Field::TransactionCount24h,
        Field::AccountAge,
    ] {
        assert_eq!(operators_for(f), numeric_set());
    }
}

#[test]
fn string_fields_get_the_four_string_operators() {
    for f in [
        Field::TransactionCurrency,
        Field::UserCountry,
        Field::IpAddress,
        Field::DeviceFingerprint,
    ] {
        assert_eq!(operators_for(f), string_set());
    }
}

#[test]
fn numeric_literal_gets_the_numeric_set() {
    assert_eq!(operators_for_value("42"), numeric_set());
}

#[test]
fn string_literal_gets_the_string_set() {
    assert_eq!(operators_for_value("abc"), string_set());
}

#[test]
fn numeric_literal_classification() {
    for s in ["42", "-3.5", "+7", "1e5", "2.5E-3", ".5", "5.", "inf", "NaN", "-Infinity"] {
        assert!(is_numeric_literal(s), "{s} should be numeric");
    }
    for s in ["", "abc", "+", "-", "1.2.3", "1e", "e5", ".", "4 2", "0x10", "1_000"] {
        assert!(!is_numeric_literal(s), "{s} should not be numeric");
    }
}

#[test]
fn field_tokens_round_trip() {
    for f in Field::all() {
        assert_eq!(Field::from_token(f.as_str()), Some(f));
    }
    assert_eq!(Field::from_token("no_such_field"), None);
    assert_eq!(Field::from_token(""), None);
}

#[test]
fn operator_tokens_round_trip() {
    for o in Operator::all() {
        assert_eq!(Operator::from_token(o.as_str()), Some(o));
    }
    assert_eq!(Operator::from_token("no_such_operator"), None);
}

#[test]
fn field_wire_tokens() {
    assert_eq!(Field::TransactionAmount.as_str(), "transaction_amount");
    assert_eq!(Field::TransactionCount24h.as_str(), "transaction_count_24h");
    assert_eq!(Field::DeviceFingerprint.as_str(), "device_fingerprint");
}

#[test]
fn display_names() {
    assert_eq!(Field::TransactionCount24h.display_name(), "Transaction Count (24h)");
    assert_eq!(Field::IpAddress.display_name(), "IP Address");
    assert_eq!(Operator::GreaterThanOrEqual.display_name(), "Greater Than or Equal");
    assert_eq!(Operator::In.as_str(), "in");
    assert_eq!(LogicalOperator::And.as_str(), "AND");
    assert_eq!(LogicalOperator::Or.as_str(), "OR");
}

#[test]
fn operand_display_quotes_values() {
    let v = Operand::Value { value: "USD".to_string() };
    assert_eq!(v.display(), "\"USD\"".to_string());
    let f = Operand::Field { field: Field::UserAge };
    assert_eq!(f.display(), "User Age".to_string());
}

#[test]
fn value_input_kinds() {
    assert_eq!(value_input_kind(Field::TransactionAmount), ValueInputKind::Number);
    assert_eq!(value_input_kind(Field::UserAge), ValueInputKind::Number);
    assert_eq!(value_input_kind(Field::TransactionCurrency), ValueInputKind::CurrencyText);
    assert_eq!(value_input_kind(Field::UserCountry), ValueInputKind::CountryText);
    assert_eq!(value_input_kind(Field::IpAddress), ValueInputKind::Text);
    assert_eq!(value_input_kind(Field::DeviceFingerprint), ValueInputKind::Text);
}
