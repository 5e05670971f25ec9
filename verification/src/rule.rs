//! The rule record: one condition tree plus metadata, its recursive
//! validator, and the single-slot store that holds the current rule.

use vstd::prelude::*;
use crate::tree::{ConditionNode, NodeModel, Operand, OperandModel, models_of, lemma_models_of};
use crate::vocab::LogicalOperator;

verus! {

/// The top-level record: one condition tree plus metadata and an action tag.
pub struct Rule {
    pub id: uuid::Uuid,
    pub name: String,
    pub description: String,
    pub root: ConditionNode,
    pub action: String,
}

/// The model of a rule: texts as character sequences, the tree as its model.
pub ghost struct RuleModel {
    pub id: uuid::Uuid,
    pub name: Seq<char>,
    pub description: Seq<char>,
    pub root: NodeModel,
    pub action: Seq<char>,
}

pub open spec fn name_error_msg() -> Seq<char> {
    "Rule name cannot be empty"@
}

pub open spec fn group_error_msg() -> Seq<char> {
    "Group must have at least one condition"@
}

pub open spec fn value_error_msg() -> Seq<char> {
    "Condition value cannot be empty"@
}

/// An empty literal operand is one error; a field reference is never one.
pub open spec fn operand_errors(m: OperandModel) -> Seq<Seq<char>> {
    match m {
        OperandModel::Value { value } => if value.len() == 0 {
            seq![value_error_msg()]
        } else {
            Seq::empty()
        },
        OperandModel::Field { .. } => Seq::empty(),
    }
}

/// All errors in a subtree, in order: a leaf reports its empty literal
/// operands left then right; a group reports its own emptiness first, then
/// its children's errors in child order. The list is never truncated.
pub open spec fn node_errors(n: NodeModel) -> Seq<Seq<char>>
    decreases n,
{
    match n {
        NodeModel::Leaf { left, right, .. } => operand_errors(left) + operand_errors(right),
        NodeModel::Group { children, .. } => (if children.len() == 0 {
            seq![group_error_msg()]
        } else {
            Seq::empty()
        }) + children_errors(children),
    }
}

/// The errors of a sequence of subtrees, in order.
pub open spec fn children_errors(cs: Seq<NodeModel>) -> Seq<Seq<char>>
    decreases cs,
{
    if cs.len() == 0 {
        Seq::empty()
    } else {
        children_errors(cs.drop_last()) + node_errors(cs.last())
    }
}

/// All errors of a rule: an empty name first, then the tree's errors.
pub open spec fn rule_errors(m: RuleModel) -> Seq<Seq<char>> {
    (if m.name.len() == 0 {
        seq![name_error_msg()]
    } else {
        Seq::empty()
    }) + node_errors(m.root)
}

/// The views of collected error strings.
pub open spec fn error_views(v: Seq<String>) -> Seq<Seq<char>> {
    v.map_values(|s: String| s@)
}

impl Rule {
    pub open spec fn model(self) -> RuleModel {
        RuleModel {
            id: self.id,
            name: self.name@,
            description: self.description@,
            root: self.root.model(),
            action: self.action@,
        }
    }

    /// A fresh rule under a newly drawn identifier: the given name and
    /// description, an empty AND-group as the root, and the default action.
    pub fn new(name: String, description: String) -> (r: Rule)
        ensures
            r.model().name == name@,
            r.model().description == description@,
            r.model().action == "flag_for_review"@,
            r.model().root is Group,
            r.model().root->op == LogicalOperator::And,
            r.model().root->Group_children == Seq::<NodeModel>::empty(),
    {
        Rule {
            id: crate::outside::fresh_uuid(),
            name,
            description,
            root: ConditionNode::new_group(LogicalOperator::And),
            action: "flag_for_review".to_owned(),
        }
    }

    /// Validate the whole rule: success exactly when nothing is wrong, else
    /// the complete list of errors, never truncated.
    pub fn validate(&self) -> (r: Result<(), Vec<String>>)
        ensures
            r is Ok <==> rule_errors(self.model()).len() == 0,
            r matches Err(e) ==> error_views(e@) == rule_errors(self.model()),
    {
        let mut errors: Vec<String> = Vec::new();
        if self.name.as_str().is_empty() {
            errors.push("Rule name cannot be empty".to_owned());
        }
        proof {
            assert(error_views(errors@) =~= (if self.model().name.len() == 0 {
                seq![name_error_msg()]
            } else {
                Seq::<Seq<char>>::empty()
            }));
        }
        self.validate_node(&self.root, &mut errors);
        proof {
            assert(error_views(errors@) =~= rule_errors(self.model()));
        }
        if errors.is_empty() {
            Ok(())
        } else {
            Err(errors)
        }
    }

    /// Collect the errors of one subtree, in order, after whatever is
    /// already in the list.
    pub fn validate_node(&self, node: &ConditionNode, errors: &mut Vec<String>)
        ensures
            error_views(final(errors)@) == error_views(old(errors)@) + node_errors(node.model()),
        decreases *node,
    {
        match node {
            ConditionNode::Leaf { left, right, .. } => {
                if let Operand::Value { value } = left {
                    if value.as_str().is_empty() {
                        errors.push("Condition value cannot be empty".to_owned());
                    }
                }
                if let Operand::Value { value } = right {
                    if value.as_str().is_empty() {
                        errors.push("Condition value cannot be empty".to_owned());
                    }
                }
                proof {
                    assert(error_views(errors@) =~= error_views(old(errors)@) + node_errors(
                        node.model(),
                    ));
                }
            },
            ConditionNode::Group { id, operator, children } => {
                if children.len() == 0 {
                    errors.push("Group must have at least one condition".to_owned());
                }
                proof {
                    lemma_models_of(children@);
                    assert(children_errors(models_of(children@).take(0)) == Seq::<Seq<
                        char,
                    >>::empty());
                    assert(error_views(errors@) =~= error_views(old(errors)@) + (if children@.len()
                        == 0 {
                        seq![group_error_msg()]
                    } else {
                        Seq::<Seq<char>>::empty()
                    }) + children_errors(models_of(children@).take(0)));
                }
                let ghost base = error_views(errors@);
                let mut k: usize = 0;
                while k < children.len()
                    invariant
                        k <= children@.len(),
                        *node == (ConditionNode::Group {
                            id: *id,
                            operator: *operator,
                            children: *children,
                        }),
                        base == error_views(old(errors)@) + (if children@.len() == 0 {
                            seq![group_error_msg()]
                        } else {
                            Seq::<Seq<char>>::empty()
                        }),
                        error_views(errors@) == base + children_errors(
                            models_of(children@).take(k as int),
                        ),
                    decreases children@.len() - k,
                {
                    proof {
                        assert(decreases_to!(*node => node->Group_children));
                        assert(decreases_to!(*children => children[k as int]));
                        lemma_models_of(children@);
                        assert(models_of(children@).take(k + 1).drop_last() =~= models_of(
                            children@,
                        ).take(k as int));
                    }
                    self.validate_node(&children[k], errors);
                    k += 1;
                }
                proof {
                    lemma_models_of(children@);
                    assert(models_of(children@).take(children@.len() as int) =~= models_of(
                        children@,
                    ));
                    assert(error_views(errors@) =~= error_views(old(errors)@) + node_errors(
                        node.model(),
                    ));
                }
            },
        }
    }
}

impl Clone for Rule {
    fn clone(&self) -> (r: Self)
        ensures
            r.model() == self.model(),
    {
        Rule {
            id: self.id.clone(),
            name: self.name.clone(),
            description: self.description.clone(),
            root: self.root.clone(),
            action: self.action.clone(),
        }
    }
}

/// The single-slot holder of the current rule. Absent only before it is
/// initialized; every read hands out a deep copy, every write replaces the
/// whole rule.
pub struct RuleStore {
    rule: Option<Rule>,
}

impl RuleStore {
    pub closed spec fn rule_model(self) -> Option<RuleModel> {
        match self.rule {
            Some(r) => Some(r.model()),
            None => None,
        }
    }

    /// A store already holding the default rule.
    pub fn new() -> (r: Self)
        ensures
            r.rule_model() matches Some(m) && m.name == "Fraud Detection Rule"@ && m.description
                == "Main fraud detection rule for transactions"@ && m.root is Group && m.root->op
                == LogicalOperator::And && m.root->Group_children == Seq::<NodeModel>::empty(),
    {
        let default_rule = Rule::new(
            "Fraud Detection Rule".to_owned(),
            "Main fraud detection rule for transactions".to_owned(),
        );
        RuleStore { rule: Some(default_rule) }
    }

    /// A deep copy of the current rule, or absent before initialization.
    pub fn get_rule(&self) -> (r: Option<Rule>)
        ensures
            match r {
                Some(x) => self.rule_model() == Some(x.model()),
                None => self.rule_model() is None,
            },
    {
        match &self.rule {
            Some(r) => Some(r.clone()),
            None => None,
        }
    }

    /// Replace the held rule with the given one.
    pub fn update_rule(&mut self, rule: Rule)
        ensures
            final(self).rule_model() == Some(rule.model()),
    {
        self.rule = Some(rule);
    }
}

} // verus!
