//! The condition tree: a recursive sum type of leaf comparisons and logical
//! groups, navigated and mutated through paths of child indices. The
//! mathematical model of a tree is `NodeModel`, a rose tree over `Seq`; every
//! contract of the executable operations is stated against that model.

use vstd::prelude::*;
use crate::vocab::{Field, LogicalOperator, Operator, field_label};

verus! {

broadcast use vstd::std_specs::vec::group_vec_axioms;

/// Either a reference to a named field or a literal string value.
pub enum Operand {
    Field { field: Field },
    Value { value: String },
}

/// The model of an operand: the literal value as a character sequence.
pub ghost enum OperandModel {
    Field { field: Field },
    Value { value: Seq<char> },
}

impl Operand {
    pub open spec fn model(self) -> OperandModel {
        match self {
            Operand::Field { field } => OperandModel::Field { field },
            Operand::Value { value } => OperandModel::Value { value: value@ },
        }
    }
}

impl Clone for Operand {
    fn clone(&self) -> (r: Self)
        ensures
            r.model() == self.model(),
    {
        match self {
            Operand::Field { field } => Operand::Field { field: *field },
            Operand::Value { value } => Operand::Value { value: value.clone() },
        }
    }
}

/// How an operand is shown to the operator: a field by its display label, a
/// literal value wrapped in double quotes.
pub open spec fn operand_display(m: OperandModel) -> Seq<char> {
    match m {
        OperandModel::Field { field } => field_label(field),
        OperandModel::Value { value } => seq!['"'] + value + seq!['"'],
    }
}

impl Operand {
    pub fn display(&self) -> (r: String)
        ensures
            r@ == operand_display(self.model()),
    {
        proof {
            reveal_strlit("\"");
        }
        match self {
            Operand::Field { field } => field.display_name().to_owned(),
            Operand::Value { value } => {
                let mut s = String::new();
                s.append("\"");
                s.append(value.as_str());
                s.append("\"");
                proof {
                    assert(s@ =~= operand_display(self.model()));
                }
                s
            },
        }
    }
}

/// A node in the condition tree: a leaf comparison or a logical group over an
/// ordered sequence of children. Only a group has children; the tree's root is
/// always a group.
#[allow(inconsistent_fields)]
pub enum ConditionNode {
    Leaf { id: uuid::Uuid, left: Operand, operator: Operator, right: Operand },
    Group { id: uuid::Uuid, operator: LogicalOperator, children: Vec<ConditionNode> },
}

/// The model of a condition tree: the same shape with mathematical sequences
/// for the children.
pub ghost enum NodeModel {
    Leaf { id: uuid::Uuid, left: OperandModel, cmp: Operator, right: OperandModel },
    Group { id: uuid::Uuid, op: LogicalOperator, children: Seq<NodeModel> },
}

impl ConditionNode {
    pub open spec fn model(self) -> NodeModel
        decreases self,
    {
        match self {
            ConditionNode::Leaf { id, left, operator, right } => NodeModel::Leaf {
                id,
                left: left.model(),
                cmp: operator,
                right: right.model(),
            },
            ConditionNode::Group { id, operator, children } => NodeModel::Group {
                id,
                op: operator,
                children: models_of(children@),
            },
        }
    }
}

/// The models of a sequence of trees, in order.
pub open spec fn models_of(cs: Seq<ConditionNode>) -> Seq<NodeModel>
    decreases cs,
{
    if cs.len() == 0 {
        Seq::empty()
    } else {
        models_of(cs.drop_last()).push(cs.last().model())
    }
}

/// `models_of` taken apart index by index.
pub proof fn lemma_models_of(cs: Seq<ConditionNode>)
    ensures
        models_of(cs).len() == cs.len(),
        forall|i: int| 0 <= i < cs.len() ==> #[trigger] models_of(cs)[i] == cs[i].model(),
    decreases cs.len(),
{
    if cs.len() > 0 {
        lemma_models_of(cs.drop_last());
    }
}

/// `models_of` commutes with updating one element.
pub proof fn lemma_models_of_update(cs: Seq<ConditionNode>, i: int, c: ConditionNode)
    requires
        0 <= i < cs.len(),
    ensures
        models_of(cs.update(i, c)) =~= models_of(cs).update(i, c.model()),
{
    lemma_models_of(cs);
    lemma_models_of(cs.update(i, c));
}

/// The node addressed by a path: an empty path addresses the node itself; a
/// leading index addresses a child of a group, out of range or descending
/// into a leaf fails.
pub open spec fn model_get_at(n: NodeModel, path: Seq<int>) -> Option<NodeModel>
    decreases path.len(),
{
    if path.len() == 0 {
        Some(n)
    } else {
        match n {
            NodeModel::Group { children, .. } => if 0 <= path[0] < children.len() {
                model_get_at(children[path[0]], path.skip(1))
            } else {
                None
            },
            NodeModel::Leaf { .. } => None,
        }
    }
}

/// The tree with the node addressed by `path` replaced by `sub`; meaningful
/// only where `model_get_at(n, path)` succeeds.
pub open spec fn model_replace_at(n: NodeModel, path: Seq<int>, sub: NodeModel) -> NodeModel
    decreases path.len(),
{
    if path.len() == 0 {
        sub
    } else {
        match n {
            NodeModel::Group { id, op, children } => if 0 <= path[0] < children.len() {
                NodeModel::Group {
                    id,
                    op,
                    children: children.update(
                        path[0],
                        model_replace_at(children[path[0]], path.skip(1), sub),
                    ),
                }
            } else {
                n
            },
            NodeModel::Leaf { .. } => n,
        }
    }
}

/// Appending `c` to the children of the group addressed by `path`: fails if
/// the path is invalid or addresses a leaf.
pub open spec fn model_add_at(n: NodeModel, path: Seq<int>, c: NodeModel) -> Option<NodeModel> {
    match model_get_at(n, path) {
        Some(NodeModel::Group { id, op, children }) => Some(
            model_replace_at(n, path, NodeModel::Group { id, op, children: children.push(c) }),
        ),
        _ => None,
    }
}

/// Deleting the node addressed by a non-empty path: the parent must be a
/// group and the final index in range; later siblings shift left. The root
/// (empty path) is never deletable.
pub open spec fn model_delete_at(n: NodeModel, path: Seq<int>) -> Option<NodeModel> {
    if path.len() == 0 {
        None
    } else {
        match model_get_at(n, path.drop_last()) {
            Some(NodeModel::Group { id, op, children }) => if 0 <= path.last() < children.len() {
                Some(
                    model_replace_at(
                        n,
                        path.drop_last(),
                        NodeModel::Group { id, op, children: children.remove(path.last()) },
                    ),
                )
            } else {
                None
            },
            _ => None,
        }
    }
}

/// A path of executable indices, as mathematical integers.
pub open spec fn to_int_seq(s: Seq<usize>) -> Seq<int> {
    s.map_values(|i: usize| i as int)
}

impl ConditionNode {
    pub fn id(&self) -> (r: uuid::Uuid)
        ensures
            match self {
                ConditionNode::Leaf { id, .. } => r == id,
                ConditionNode::Group { id, .. } => r == id,
            },
    {
        match self {
            ConditionNode::Leaf { id, .. } => id.clone(),
            ConditionNode::Group { id, .. } => id.clone(),
        }
    }

    pub fn is_leaf(&self) -> (r: bool)
        ensures
            r == (self.model() is Leaf),
    {
        matches!(self, ConditionNode::Leaf { .. })
    }

    pub fn is_group(&self) -> (r: bool)
        ensures
            r == (self.model() is Group),
    {
        matches!(self, ConditionNode::Group { .. })
    }

    /// Navigate to the node at the given path.
    pub fn get_at_path(&self, path: &[usize]) -> (r: Option<&ConditionNode>)
        ensures
            match r {
                Some(m) => model_get_at(self.model(), to_int_seq(path@)) == Some(m.model()),
                None => model_get_at(self.model(), to_int_seq(path@)) is None,
            },
        decreases path@.len(),
    {
        if path.is_empty() {
            return Some(self);
        }
        match self {
            ConditionNode::Group { children, .. } => {
                proof {
                    lemma_models_of(children@);
                }
                let i = *vstd::slice::slice_index_get(path, 0);
                if i < children.len() {
                    let rest = vstd::slice::slice_subrange(path, 1, path.len());
                    let r = children[i].get_at_path(rest);
                    proof {
                        assert(to_int_seq(path@).skip(1) =~= to_int_seq(rest@));
                    }
                    r
                } else {
                    None
                }
            },
            ConditionNode::Leaf { .. } => None,
        }
    }

    /// Navigate to the node at the given path, for in-place edits. The final
    /// tree is the old tree with whatever the caller leaves behind the
    /// returned reference put in at that path.
    pub fn get_at_path_mut(&mut self, path: &[usize]) -> (r: Option<&mut ConditionNode>)
        ensures
            match r {
                Some(m) => {
                    &&& model_get_at(old(self).model(), to_int_seq(path@)) == Some((*m).model())
                    &&& final(self).model() == model_replace_at(
                        old(self).model(),
                        to_int_seq(path@),
                        final(m).model(),
                    )
                },
                None => {
                    &&& model_get_at(old(self).model(), to_int_seq(path@)) is None
                    &&& final(self).model() == old(self).model()
                },
            },
        decreases path@.len(),
    {
        if path.is_empty() {
            return Some(self);
        }
        match self {
            ConditionNode::Group { children, .. } => {
                proof {
                    lemma_models_of(children@);
                }
                let i = *vstd::slice::slice_index_get(path, 0);
                if i < children.len() {
                    let ghost old_children = children@;
                    let rest = vstd::slice::slice_subrange(path, 1, path.len());
                    let child = vec_index_mut(children, i);
                    let ghost old_child = *child;
                    let ghost fin_child = *final(child);
                    let r = child.get_at_path_mut(rest);
                    proof {
                        assert(to_int_seq(path@).skip(1) =~= to_int_seq(rest@));
                        lemma_models_of_update(old_children, i as int, fin_child);
                        if model_get_at(old_child.model(), to_int_seq(rest@)) is None {
                            assert(models_of(old_children).update(i as int, fin_child.model())
                                =~= models_of(old_children));
                        }
                    }
                    r
                } else {
                    None
                }
            },
            ConditionNode::Leaf { .. } => None,
        }
    }
}

/// Setting the combinator of the group addressed by `path`: fails if the
/// path is invalid or addresses a leaf; the children are kept as they are.
pub open spec fn model_set_op_at(n: NodeModel, path: Seq<int>, op: LogicalOperator) -> Option<
    NodeModel,
> {
    match model_get_at(n, path) {
        Some(NodeModel::Group { id, op: _, children }) => Some(
            model_replace_at(n, path, NodeModel::Group { id, op, children }),
        ),
        _ => None,
    }
}

/// `models_of` commutes with appending one element.
pub proof fn lemma_models_of_push(cs: Seq<ConditionNode>, c: ConditionNode)
    ensures
        models_of(cs.push(c)) =~= models_of(cs).push(c.model()),
{
    assert(cs.push(c).drop_last() =~= cs);
    lemma_models_of(cs);
    lemma_models_of(cs.push(c));
}

/// `models_of` commutes with removing one element.
pub proof fn lemma_models_of_remove(cs: Seq<ConditionNode>, i: int)
    requires
        0 <= i < cs.len(),
    ensures
        models_of(cs.remove(i)) =~= models_of(cs).remove(i),
{
    lemma_models_of(cs);
    lemma_models_of(cs.remove(i));
    cs.remove_ensures(i);
    models_of(cs).remove_ensures(i);
}

/// Putting back the very node a path addresses leaves the tree unchanged.
pub proof fn lemma_replace_unchanged(n: NodeModel, path: Seq<int>)
    requires
        model_get_at(n, path) is Some,
    ensures
        model_replace_at(n, path, model_get_at(n, path)->0) == n,
    decreases path.len(),
{
    if path.len() > 0 {
        match n {
            NodeModel::Group { id, op, children } => {
                lemma_replace_unchanged(children[path[0]], path.skip(1));
                assert(children.update(path[0], children[path[0]]) =~= children);
            },
            NodeModel::Leaf { .. } => {},
        }
    }
}

impl ConditionNode {
    /// Append a child to the group at the given path; fails (and leaves the
    /// tree unchanged) if the path is invalid or addresses a leaf.
    pub fn add_child_at_path(&mut self, path: &[usize], child: ConditionNode) -> (ok: bool)
        ensures
            ok == (model_add_at(old(self).model(), to_int_seq(path@), child.model()) is Some),
            ok ==> final(self).model() == model_add_at(
                old(self).model(),
                to_int_seq(path@),
                child.model(),
            )->0,
            !ok ==> final(self).model() == old(self).model(),
    {
        let ghost cm = child.model();
        match self.get_at_path_mut(path) {
            Some(m) => match m {
                ConditionNode::Group { children, .. } => {
                    let ghost old_children = children@;
                    children.push(child);
                    proof {
                        lemma_models_of_push(old_children, child);
                    }
                    true
                },
                ConditionNode::Leaf { .. } => {
                    proof {
                        lemma_replace_unchanged(old(self).model(), to_int_seq(path@));
                    }
                    false
                },
            },
            None => false,
        }
    }

    /// Delete the node at the given non-empty path; the root itself is never
    /// deletable. Later siblings shift left by one place.
    pub fn delete_at_path(&mut self, path: &[usize]) -> (ok: bool)
        ensures
            ok == (model_delete_at(old(self).model(), to_int_seq(path@)) is Some),
            ok ==> final(self).model() == model_delete_at(
                old(self).model(),
                to_int_seq(path@),
            )->0,
            !ok ==> final(self).model() == old(self).model(),
    {
        if path.is_empty() {
            return false;
        }
        let parent = vstd::slice::slice_subrange(path, 0, path.len() - 1);
        let idx = *vstd::slice::slice_index_get(path, path.len() - 1);
        proof {
            assert(to_int_seq(path@).drop_last() =~= to_int_seq(parent@));
            assert(to_int_seq(path@).last() == idx as int);
        }
        match self.get_at_path_mut(parent) {
            Some(m) => match m {
                ConditionNode::Group { children, .. } => {
                    proof {
                        lemma_models_of(children@);
                    }
                    if idx < children.len() {
                        let ghost old_children = children@;
                        children.remove(idx);
                        proof {
                            lemma_models_of_remove(old_children, idx as int);
                        }
                        true
                    } else {
                        proof {
                            lemma_replace_unchanged(old(self).model(), to_int_seq(parent@));
                        }
                        false
                    }
                },
                ConditionNode::Leaf { .. } => {
                    proof {
                        lemma_replace_unchanged(old(self).model(), to_int_seq(parent@));
                    }
                    false
                },
            },
            None => false,
        }
    }

    /// Set the logical combinator of the group at the given path; fails (and
    /// leaves the tree unchanged) if the path is invalid or addresses a leaf.
    pub fn set_operator_at(&mut self, path: &[usize], op: LogicalOperator) -> (ok: bool)
        ensures
            ok == (model_set_op_at(old(self).model(), to_int_seq(path@), op) is Some),
            ok ==> final(self).model() == model_set_op_at(
                old(self).model(),
                to_int_seq(path@),
                op,
            )->0,
            !ok ==> final(self).model() == old(self).model(),
    {
        match self.get_at_path_mut(path) {
            Some(m) => match m {
                ConditionNode::Group { operator, .. } => {
                    *operator = op;
                    true
                },
                ConditionNode::Leaf { .. } => {
                    proof {
                        lemma_replace_unchanged(old(self).model(), to_int_seq(path@));
                    }
                    false
                },
            },
            None => false,
        }
    }
}

impl Clone for ConditionNode {
    fn clone(&self) -> (r: Self)
        ensures
            r.model() == self.model(),
        decreases *self,
    {
        match self {
            ConditionNode::Leaf { id, left, operator, right } => ConditionNode::Leaf {
                id: id.clone(),
                left: left.clone(),
                operator: *operator,
                right: right.clone(),
            },
            ConditionNode::Group { id, operator, children } => {
                let mut cs: Vec<ConditionNode> = Vec::new();
                let mut k: usize = 0;
                while k < children.len()
                    invariant
                        k <= children.len(),
                        cs@.len() == k as int,
                        *self == (ConditionNode::Group {
                            id: *id,
                            operator: *operator,
                            children: *children,
                        }),
                        forall|j: int|
                            0 <= j < k ==> #[trigger] cs@[j].model() == children@[j].model(),
                    decreases children@.len() - k,
                {
                    proof {
                        assert(decreases_to!(*self => self->Group_children));
                        assert(decreases_to!(*children => children[k as int]));
                    }
                    cs.push(children[k].clone());
                    k += 1;
                }
                proof {
                    lemma_models_of(cs@);
                    lemma_models_of(children@);
                    assert(models_of(cs@) =~= models_of(children@));
                }
                ConditionNode::Group { id: id.clone(), operator: *operator, children: cs }
            },
        }
    }
}

impl ConditionNode {
    /// A fresh leaf comparison under a newly drawn identifier.
    pub fn new_leaf(left: Operand, operator: Operator, right: Operand) -> (r: Self)
        ensures
            r.model() is Leaf,
            r.model()->left == left.model(),
            r.model()->cmp == operator,
            r.model()->right == right.model(),
    {
        ConditionNode::Leaf { id: crate::outside::fresh_uuid(), left, operator, right }
    }

    /// A fresh empty group under a newly drawn identifier.
    pub fn new_group(operator: LogicalOperator) -> (r: Self)
        ensures
            r.model() is Group,
            r.model()->op == operator,
            r.model()->Group_children == Seq::<NodeModel>::empty(),
    {
        ConditionNode::Group { id: crate::outside::fresh_uuid(), operator, children: Vec::new() }
    }
}

/// The empty path always addresses the node itself.
pub proof fn lemma_root_addressing(n: NodeModel)
    ensures
        model_get_at(n, Seq::empty()) == Some(n),
{
}

/// The root, addressed by the empty path, is never deletable, whatever the
/// shape of the tree.
pub proof fn lemma_root_not_deletable(n: NodeModel)
    ensures
        model_delete_at(n, Seq::empty()) is None,
{
}

/// After a replacement at a valid path, that path addresses the replacement.
pub proof fn lemma_get_replace(n: NodeModel, path: Seq<int>, sub: NodeModel)
    requires
        model_get_at(n, path) is Some,
    ensures
        model_get_at(model_replace_at(n, path, sub), path) == Some(sub),
    decreases path.len(),
{
    if path.len() > 0 {
        match n {
            NodeModel::Group { id, op, children } => {
                lemma_get_replace(children[path[0]], path.skip(1), sub);
            },
            NodeModel::Leaf { .. } => {},
        }
    }
}

/// Append-only ordering: after a successful append at `path`, the node at
/// `path` is a group whose children are the old children with the new child
/// appended — the new child is the last element, and all prior children keep
/// their places and relative order.
pub proof fn lemma_append_only(n: NodeModel, path: Seq<int>, c: NodeModel)
    requires
        model_add_at(n, path, c) is Some,
    ensures
        ({
            let g = model_get_at(n, path)->0;
            let m = model_add_at(n, path, c)->0;
            let q = model_get_at(m, path)->0;
            &&& model_get_at(n, path) is Some
            &&& g is Group
            &&& model_get_at(m, path) is Some
            &&& q is Group
            &&& q->Group_children == g->Group_children.push(c)
            &&& q->Group_children.last() == c
            &&& forall|j: int|
                0 <= j < g->Group_children.len() ==> #[trigger] q->Group_children[j]
                    == g->Group_children[j]
        }),
{
    let g = model_get_at(n, path)->0;
    match g {
        NodeModel::Group { id, op, children } => {
            lemma_get_replace(n, path, NodeModel::Group { id, op, children: children.push(c) });
        },
        NodeModel::Leaf { .. } => {},
    }
}

/// Delete-shifts: a successful delete of child `i` of the group at the parent
/// path yields a group of one fewer children, where the children before `i`
/// keep their places and those after `i` shift left by one.
pub proof fn lemma_delete_shifts(n: NodeModel, path: Seq<int>)
    requires
        model_delete_at(n, path) is Some,
    ensures
        ({
            let i = path.last();
            let g = model_get_at(n, path.drop_last())->0;
            let m = model_delete_at(n, path)->0;
            let q = model_get_at(m, path.drop_last())->0;
            &&& path.len() > 0
            &&& model_get_at(n, path.drop_last()) is Some
            &&& g is Group
            &&& 0 <= i < g->Group_children.len()
            &&& model_get_at(m, path.drop_last()) is Some
            &&& q is Group
            &&& q->Group_children.len() == g->Group_children.len() - 1
            &&& forall|j: int|
                0 <= j < i ==> #[trigger] q->Group_children[j] == g->Group_children[j]
            &&& forall|j: int|
                i <= j < q->Group_children.len() ==> #[trigger] q->Group_children[j]
                    == g->Group_children[j + 1]
        }),
{
    let i = path.last();
    let g = model_get_at(n, path.drop_last())->0;
    match g {
        NodeModel::Group { id, op, children } => {
            lemma_get_replace(
                n,
                path.drop_last(),
                NodeModel::Group { id, op, children: children.remove(i) },
            );
            children.remove_ensures(i);
        },
        NodeModel::Leaf { .. } => {},
    }
}

/// A mutable borrow of one element of a vector.
fn vec_index_mut<T>(v: &mut Vec<T>, i: usize) -> (element: &mut T)
    requires
        i < old(v).len(),
    ensures
        *element == old(v)@[i as int],
        final(v)@ == old(v)@.update(i as int, *final(element)),
{
    &mut v[i]
}

} // verus!
