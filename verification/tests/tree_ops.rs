use rule_builder::tree::{ConditionNode, Operand};
use rule_builder::vocab::{LogicalOperator, Operator};

fn leaf(left: &str, op: Operator, right: &str) -> ConditionNode {
    ConditionNode::new_leaf(
        Operand::Value { value: left.to_string() },
        op,
        Operand::Value { value: right.to_string() },
    )
}

fn group_children(node: &ConditionNode) -> &Vec<ConditionNode> {
    match node {
        ConditionNode::Group { children, .. } => children,
        ConditionNode::Leaf { .. } => panic!("expected a group"),
    }
}

#[test]
fn empty_path_addresses_the_root() {
    let root = ConditionNode::new_group(LogicalOperator::And);
    let found = root.get_at_path(&[]).expect("root must be found");
    assert!(found.is_group());
    assert_eq!(found.id(), root.id());
}

#[test]
fn add_child_appends_last_and_keeps_order() {
    let mut root = ConditionNode::new_group(LogicalOperator::And);
    let a = leaf("a", Operator::Equals, "1");
    let b = leaf("b", Operator::Equals, "2");
    let c = leaf("c", Operator::Equals, "3");
    let (ida, idb, idc) = (a.id(), b.id(), c.id());
    assert!(root.add_child_at_path(&[], a));
    assert!(root.add_child_at_path(&[], b));
    assert!(root.add_child_at_path(&[], c));
    let children = group_children(&root);
    assert_eq!(children.len(), 3);
    assert_eq!(children[0].id(), ida);
    assert_eq!(children[1].id(), idb);
    assert_eq!(children[2].id(), idc);
}

#[test]
fn add_into_a_leaf_fails() {
    let mut root = ConditionNode::new_group(LogicalOperator::And);
    assert!(root.add_child_at_path(&[], leaf("a", Operator::Equals, "1")));
    assert!(!root.add_child_at_path(&[0], leaf("b", Operator::Equals, "2")));
    assert_eq!(group_children(&root).len(), 1);
}

#[test]
fn add_at_an_invalid_path_fails() {
    let mut root = ConditionNode::new_group(LogicalOperator::And);
    assert!(!root.add_child_at_path(&[5], leaf("a", Operator::Equals, "1")));
}

#[test]
fn get_at_path_descends_groups() {
    let mut root = ConditionNode::new_group(LogicalOperator::And);
    assert!(root.add_child_at_path(&[], ConditionNode::new_group(LogicalOperator::Or)));
    let inner = leaf("x", Operator::LessThan, "9");
    let inner_id = inner.id();
    assert!(root.add_child_at_path(&[0], inner));
    let found = root.get_at_path(&[0, 0]).expect("leaf must be found");
    assert!(found.is_leaf());
    assert_eq!(found.id(), inner_id);
    assert!(root.get_at_path(&[0, 1]).is_none());
    assert!(root.get_at_path(&[0, 0, 0]).is_none());
    assert!(root.get_at_path(&[1]).is_none());
}

#[test]
fn delete_shifts_later_siblings_left() {
    let mut root = ConditionNode::new_group(LogicalOperator::And);
    let ids: Vec<_> = (0..4)
        .map(|i| {
            let n = leaf(&format!("v{}", i), Operator::Equals, "1");
            let id = n.id();
            assert!(root.add_child_at_path(&[], n));
            id
        })
        .collect();
    assert!(root.delete_at_path(&[1]));
    let children = group_children(&root);
    assert_eq!(children.len(), 3);
    assert_eq!(children[0].id(), ids[0]);
    assert_eq!(children[1].id(), ids[2]);
    assert_eq!(children[2].id(), ids[3]);
}

#[test]
fn root_is_never_deletable() {
    let mut root = ConditionNode::new_group(LogicalOperator::And);
    assert!(!root.delete_at_path(&[]));
    assert!(root.add_child_at_path(&[], leaf("a", Operator::Equals, "1")));
    assert!(!root.delete_at_path(&[]));
}

#[test]
fn delete_out_of_range_fails() {
    let mut root = ConditionNode::new_group(LogicalOperator::And);
    assert!(root.add_child_at_path(&[], leaf("a", Operator::Equals, "1")));
    assert!(!root.delete_at_path(&[1]));
    assert_eq!(group_children(&root).len(), 1);
}

#[test]
fn delete_a_group_deletes_its_subtree() {
    let mut root = ConditionNode::new_group(LogicalOperator::And);
    assert!(root.add_child_at_path(&[], ConditionNode::new_group(LogicalOperator::Or)));
    assert!(root.add_child_at_path(&[0], leaf("x", Operator::Equals, "1")));
    assert!(root.delete_at_path(&[0]));
    assert_eq!(group_children(&root).len(), 0);
}

#[test]
fn set_operator_changes_a_group() {
    let mut root = ConditionNode::new_group(LogicalOperator::And);
    assert!(root.add_child_at_path(&[], ConditionNode::new_group(LogicalOperator::And)));
    assert!(root.set_operator_at(&[0], LogicalOperator::Or));
    match root.get_at_path(&[0]).unwrap() {
        ConditionNode::Group { operator, .. } => assert_eq!(*operator, LogicalOperator::Or),
        ConditionNode::Leaf { .. } => panic!("expected a group"),
    }
}

#[test]
fn set_operator_on_a_leaf_fails() {
    let mut root = ConditionNode::new_group(LogicalOperator::And);
    assert!(root.add_child_at_path(&[], leaf("a", Operator::Equals, "1")));
    assert!(!root.set_operator_at(&[0], LogicalOperator::Or));
}

#[test]
fn clone_preserves_the_tree() {
    let mut root = ConditionNode::new_group(LogicalOperator::And);
    assert!(root.add_child_at_path(&[], ConditionNode::new_group(LogicalOperator::Or)));
    assert!(root.add_child_at_path(&[0], leaf("x", Operator::In, "a,b")));
    let copy = root.clone();
    assert_eq!(copy.id(), root.id());
    let orig_leaf = root.get_at_path(&[0, 0]).unwrap();
    let copy_leaf = copy.get_at_path(&[0, 0]).unwrap();
    assert_eq!(orig_leaf.id(), copy_leaf.id());
}
