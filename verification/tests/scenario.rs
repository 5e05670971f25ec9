use rule_builder::forms::{
    AddConditionForm, FieldQuery, LoginForm, ValueInputQuery, condition_from_form,
    credentials_present, operators_for_left, operators_for_query, value_input_for_query,
};
use rule_builder::path::parse_path;
use rule_builder::rule::RuleStore;
use rule_builder::tree::{ConditionNode, Operand};
use rule_builder::vocab::{Field, LogicalOperator, Operator, ValueInputKind};

#[test]
fn build_edit_validate_delete_revalidate() {
    // Start with the default rule: an empty AND-group at the root.
    let store = RuleStore::new();
    let mut rule = store.get_rule().expect("the store is initialized");
    assert_eq!(rule.name, "Fraud Detection Rule".to_string());

    // Add a group at the root.
    let at_root = parse_path("0");
    assert!(rule.root.add_child_at_path(&at_root, ConditionNode::new_group(LogicalOperator::And)));
    match rule.root.get_at_path(&at_root).unwrap() {
        ConditionNode::Group { operator, children, .. } => {
            assert_eq!(*operator, LogicalOperator::And);
            assert_eq!(children.len(), 1);
            assert!(children[0].is_group());
        },
        ConditionNode::Leaf { .. } => panic!("the root must be a group"),
    }

    // Add a transaction-amount comparison under the new group.
    let under_group = parse_path("0-0");
    let condition = ConditionNode::new_leaf(
        Operand::Field { field: Field::TransactionAmount },
        Operator::GreaterThan,
        Operand::Value { value: "1000".to_string() },
    );
    assert!(rule.root.add_child_at_path(&under_group, condition));
    assert!(rule.validate().is_ok());

    // Delete the whole subgroup: the root is empty again and the validator
    // reports it.
    assert!(rule.root.delete_at_path(&under_group));
    match &rule.root {
        ConditionNode::Group { children, .. } => assert!(children.is_empty()),
        ConditionNode::Leaf { .. } => panic!("the root must be a group"),
    }
    let errors = rule.validate().unwrap_err();
    assert_eq!(errors, vec!["Group must have at least one condition".to_string()]);
}

#[test]
fn store_update_and_reread() {
    let mut store = RuleStore::new();
    let mut rule = store.get_rule().unwrap();
    assert!(rule.root.add_child_at_path(
        &[],
        ConditionNode::new_leaf(
            Operand::Field { field: Field::UserCountry },
            Operator::Equals,
            Operand::Value { value: "US".to_string() },
        )
    ));
    store.update_rule(rule.clone());
    let back = store.get_rule().unwrap();
    assert_eq!(back.id, rule.id);
    match &back.root {
        ConditionNode::Group { children, .. } => assert_eq!(children.len(), 1),
        ConditionNode::Leaf { .. } => panic!("the root must be a group"),
    }
}

fn form(
    left_type: &str,
    left_field: Option<&str>,
    left_value: Option<&str>,
    operator: &str,
    right_type: &str,
    right_field: Option<&str>,
    right_value: Option<&str>,
) -> AddConditionForm {
    AddConditionForm {
        left_type: left_type.to_string(),
        left_field: left_field.map(|s| s.to_string()),
        left_value: left_value.map(|s| s.to_string()),
        operator: operator.to_string(),
        right_type: right_type.to_string(),
        right_field: right_field.map(|s| s.to_string()),
        right_value: right_value.map(|s| s.to_string()),
    }
}

#[test]
fn a_well_formed_request_builds_a_leaf() {
    let f = form(
        "field",
        Some("transaction_amount"),
        None,
        "greater_than",
        "value",
        None,
        Some("1000"),
    );
    let node = condition_from_form(&f).expect("the request is well-formed");
    match node {
        ConditionNode::Leaf { left, operator, right, .. } => {
            assert!(matches!(left, Operand::Field { field: Field::TransactionAmount }));
            assert_eq!(operator, Operator::GreaterThan);
            match right {
                Operand::Value { value } => assert_eq!(value, "1000".to_string()),
                Operand::Field { .. } => panic!("the right side is a value"),
            }
        },
        ConditionNode::Group { .. } => panic!("a condition is a leaf"),
    }
}

#[test]
fn an_unknown_field_token_is_rejected() {
    let f = form("field", Some("not_a_field"), None, "equals", "value", None, Some("1"));
    assert!(condition_from_form(&f).is_none());
}

#[test]
fn an_unknown_operator_token_is_rejected() {
    let f = form("value", None, Some("1"), "sideways", "value", None, Some("2"));
    assert!(condition_from_form(&f).is_none());
}

#[test]
fn a_missing_value_reads_as_empty() {
    let f = form("value", None, None, "equals", "value", None, None);
    let node = condition_from_form(&f).unwrap();
    match node {
        ConditionNode::Leaf { left, right, .. } => {
            assert!(matches!(left, Operand::Value { ref value } if value.is_empty()));
            assert!(matches!(right, Operand::Value { ref value } if value.is_empty()));
        },
        ConditionNode::Group { .. } => panic!("a condition is a leaf"),
    }
}

#[test]
fn operator_query_rejects_unknown_tokens() {
    let known = FieldQuery { field: "user_age".to_string() };
    assert_eq!(operators_for_query(&known).map(|v| v.len()), Some(6));
    let unknown = FieldQuery { field: "user_agex".to_string() };
    assert!(operators_for_query(&unknown).is_none());
}

#[test]
fn operators_for_an_unset_left_side_are_all() {
    assert_eq!(operators_for_left("value", "").map(|v| v.len()), Some(8));
    assert_eq!(operators_for_left("field", "").map(|v| v.len()), Some(8));
    assert_eq!(operators_for_left("field", "user_age").map(|v| v.len()), Some(6));
    assert_eq!(operators_for_left("field", "user_country").map(|v| v.len()), Some(4));
    assert!(operators_for_left("field", "bogus").is_none());
}

#[test]
fn value_input_query_rejects_unknown_tokens() {
    let known = ValueInputQuery {
        field: "transaction_currency".to_string(),
        operator: "equals".to_string(),
    };
    assert_eq!(value_input_for_query(&known), Some(ValueInputKind::CurrencyText));
    let unknown = ValueInputQuery {
        field: "mystery".to_string(),
        operator: "equals".to_string(),
    };
    assert_eq!(value_input_for_query(&unknown), None);
}

#[test]
fn login_needs_both_credentials() {
    let ok = LoginForm { username: "u".to_string(), password: "p".to_string() };
    assert!(credentials_present(&ok));
    let no_user = LoginForm { username: "".to_string(), password: "p".to_string() };
    assert!(!credentials_present(&no_user));
    let no_pass = LoginForm { username: "u".to_string(), password: "".to_string() };
    assert!(!credentials_present(&no_pass));
}
