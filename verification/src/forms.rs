//! The values the edit requests carry, and how they become tree material.
//! Unknown field or operator tokens are rejected outright, never defaulted.

use vstd::prelude::*;
use crate::tree::{ConditionNode, Operand, OperandModel};
use crate::vocab::{
    Field,
    Operator,
    ValueInputKind,
    all_operators,
    field_token,
    operator_token,
    spec_operators_for,
    spec_value_input_kind,
};

verus! {

/// The add-condition request: each side is a field reference or a literal
/// value, chosen by its type tag.
pub struct AddConditionForm {
    pub left_type: String,
    pub left_field: Option<String>,
    pub left_value: Option<String>,
    pub operator: String,
    pub right_type: String,
    pub right_field: Option<String>,
    pub right_value: Option<String>,
}

/// The operator-listing request.
pub struct FieldQuery {
    pub field: String,
}

/// The value-widget request.
pub struct ValueInputQuery {
    pub field: String,
    pub operator: String,
}

/// The login request.
pub struct LoginForm {
    pub username: String,
    pub password: String,
}

pub open spec fn opt_view(o: Option<String>) -> Option<Seq<char>> {
    match o {
        Some(s) => Some(s@),
        None => None,
    }
}

/// What one side of a comparison means: under the field tag, a known field
/// token; under any other tag, the literal value, absent meaning empty.
pub open spec fn operand_matches(
    ty: Seq<char>,
    ftok: Option<Seq<char>>,
    val: Option<Seq<char>>,
    m: OperandModel,
) -> bool {
    if ty == "field"@ {
        m matches OperandModel::Field { field } && ftok matches Some(t) && t == field_token(field)
    } else {
        m == (OperandModel::Value {
            value: match val {
                Some(v) => v,
                None => Seq::empty(),
            },
        })
    }
}

/// When one side cannot be read: the field tag with no token, or with a
/// token that names no field.
pub open spec fn operand_rejected(ty: Seq<char>, ftok: Option<Seq<char>>) -> bool {
    ty == "field"@ && match ftok {
        None => true,
        Some(t) => forall|f: Field| t != field_token(f),
    }
}

/// One side of a comparison out of its three request values.
fn operand_from(ty: &String, ftok: &Option<String>, val: &Option<String>) -> (r: Option<Operand>)
    ensures
        match r {
            Some(op) => operand_matches(ty@, opt_view(*ftok), opt_view(*val), op.model()),
            None => operand_rejected(ty@, opt_view(*ftok)),
        },
{
    if crate::outside::str_eq(ty.as_str(), "field") {
        match ftok {
            Some(t) => match Field::from_token(t.as_str()) {
                Some(f) => Some(Operand::Field { field: f }),
                None => None,
            },
            None => None,
        }
    } else {
        let value = match val {
            Some(v) => v.clone(),
            None => String::new(),
        };
        Some(Operand::Value { value })
    }
}

/// Build the leaf comparison an add-condition request asks for, under a
/// newly drawn identifier; nothing is built if either side or the operator
/// cannot be read.
pub fn condition_from_form(form: &AddConditionForm) -> (r: Option<ConditionNode>)
    ensures
        match r {
            Some(node) => {
                &&& node.model() is Leaf
                &&& operand_matches(
                    form.left_type@,
                    opt_view(form.left_field),
                    opt_view(form.left_value),
                    node.model()->left,
                )
                &&& form.operator@ == operator_token(node.model()->cmp)
                &&& operand_matches(
                    form.right_type@,
                    opt_view(form.right_field),
                    opt_view(form.right_value),
                    node.model()->right,
                )
            },
            None => {
                ||| operand_rejected(form.left_type@, opt_view(form.left_field))
                ||| (forall|o: Operator| form.operator@ != operator_token(o))
                ||| operand_rejected(form.right_type@, opt_view(form.right_field))
            },
        },
{
    let left = match operand_from(&form.left_type, &form.left_field, &form.left_value) {
        Some(op) => op,
        None => {
            return None;
        },
    };
    let operator = match Operator::from_token(form.operator.as_str()) {
        Some(o) => o,
        None => {
            return None;
        },
    };
    let right = match operand_from(&form.right_type, &form.right_field, &form.right_value) {
        Some(op) => op,
        None => {
            return None;
        },
    };
    Some(ConditionNode::new_leaf(left, operator, right))
}

/// The operators for the field a query names; an unknown token is an error,
/// not a licence for every operator.
pub fn operators_for_query(query: &FieldQuery) -> (r: Option<Vec<Operator>>)
    ensures
        match r {
            Some(v) => exists|f: Field|
                query.field@ == field_token(f) && v@ == spec_operators_for(f),
            None => forall|f: Field| query.field@ != field_token(f),
        },
{
    match Field::from_token(query.field.as_str()) {
        Some(f) => Some(crate::vocab::operators_for(f)),
        None => None,
    }
}

/// The value widget for the field a query names; an unknown token is an
/// error.
pub fn value_input_for_query(query: &ValueInputQuery) -> (r: Option<ValueInputKind>)
    ensures
        match r {
            Some(k) => exists|f: Field|
                query.field@ == field_token(f) && k == spec_value_input_kind(f),
            None => forall|f: Field| query.field@ != field_token(f),
        },
{
    match Field::from_token(query.field.as_str()) {
        Some(f) => Some(crate::vocab::value_input_kind(f)),
        None => None,
    }
}

/// The operators offered for a chosen left side: a known field narrows them
/// to its class; an empty choice or a literal left side leaves all of them
/// open; a field tag with an unknown token is an error.
pub fn operators_for_left(left_type: &str, left_field: &str) -> (r: Option<Vec<Operator>>)
    ensures
        ({
            let active = left_type@ == "field"@ && left_field@.len() > 0;
            match r {
                Some(v) => (active && exists|f: Field|
                    left_field@ == field_token(f) && v@ == spec_operators_for(f)) || (!active && v@
                    == all_operators()),
                None => active && forall|f: Field| left_field@ != field_token(f),
            }
        }),
{
    if crate::outside::str_eq(left_type, "field") && !left_field.is_empty() {
        match Field::from_token(left_field) {
            Some(f) => Some(crate::vocab::operators_for(f)),
            None => None,
        }
    } else {
        Some(Operator::all())
    }
}

/// A login is accepted exactly when both the username and the password are
/// present; their values are not examined.
pub fn credentials_present(form: &LoginForm) -> (r: bool)
    ensures
        r == (form.username@.len() > 0 && form.password@.len() > 0),
{
    !form.username.as_str().is_empty() && !form.password.as_str().is_empty()
}

} // verus!
