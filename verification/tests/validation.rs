use rule_builder::rule::Rule;
use rule_builder::tree::{ConditionNode, Operand};
use rule_builder::vocab::{Field, LogicalOperator, Operator};

#[test]
fn default_rule_reports_its_empty_root_group() {
    let rule = Rule::new("r".to_string(), "d".to_string());
    let errors = rule.validate().unwrap_err();
    assert_eq!(errors, vec!["Group must have at least one condition".to_string()]);
}

#[test]
fn a_filled_rule_validates() {
    let mut rule = Rule::new("r".to_string(), "d".to_string());
    let node = ConditionNode::new_leaf(
        Operand::Field { field: Field::TransactionAmount },
        Operator::GreaterThan,
        Operand::Value { value: "1000".to_string() },
    );
    assert!(rule.root.add_child_at_path(&[], node));
    assert!(rule.validate().is_ok());
}

#[test]
fn all_errors_are_reported_at_once() {
    // An empty name, one empty group, and one leaf with an empty literal:
    // exactly three errors, in tree order, never truncated.
    let mut rule = Rule::new("".to_string(), "d".to_string());
    assert!(rule.root.add_child_at_path(&[], ConditionNode::new_group(LogicalOperator::Or)));
    let bad_leaf = ConditionNode::new_leaf(
        Operand::Field { field: Field::UserCountry },
        Operator::Equals,
        Operand::Value { value: "".to_string() },
    );
    assert!(rule.root.add_child_at_path(&[], bad_leaf));
    let errors = rule.validate().unwrap_err();
    assert_eq!(
        errors,
        vec![
            "Rule name cannot be empty".to_string(),
            "Group must have at least one condition".to_string(),
            "Condition value cannot be empty".to_string(),
        ]
    );
}

#[test]
fn both_empty_sides_of_a_leaf_are_reported() {
    let mut rule = Rule::new("r".to_string(), "d".to_string());
    let node = ConditionNode::new_leaf(
        Operand::Value { value: "".to_string() },
        Operator::Equals,
        Operand::Value { value: "".to_string() },
    );
    assert!(rule.root.add_child_at_path(&[], node));
    let errors = rule.validate().unwrap_err();
    assert_eq!(
        errors,
        vec![
            "Condition value cannot be empty".to_string(),
            "Condition value cannot be empty".to_string(),
        ]
    );
}

#[test]
fn errors_are_collected_depth_first() {
    let mut rule = Rule::new("r".to_string(), "d".to_string());
    assert!(rule.root.add_child_at_path(&[], ConditionNode::new_group(LogicalOperator::And)));
    assert!(rule.root.add_child_at_path(&[], ConditionNode::new_group(LogicalOperator::Or)));
    let errors = rule.validate().unwrap_err();
    assert_eq!(errors.len(), 2);
}

#[test]
fn rule_new_sets_default_action_and_empty_root() {
    let rule = Rule::new("name".to_string(), "desc".to_string());
    assert_eq!(rule.name, "name".to_string());
    assert_eq!(rule.description, "desc".to_string());
    assert_eq!(rule.action, "flag_for_review".to_string());
    match &rule.root {
        ConditionNode::Group { operator, children, .. } => {
            assert_eq!(*operator, LogicalOperator::And);
            assert!(children.is_empty());
        },
        ConditionNode::Leaf { .. } => panic!("the root must be a group"),
    }
}
