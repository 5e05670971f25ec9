//! The vocabulary of the rule language: comparison fields, comparison
//! operators, logical combinators, and operands. Each field and operator has a
//! fixed lowercase wire token and a human display label; fields fall in a
//! numeric and a string class, which decides the operators legal for them.

use vstd::prelude::*;

verus! {

#[derive(Clone, Copy, PartialEq, Eq, Structural, Debug)]
pub enum Field {
    TransactionAmount,
    TransactionCurrency,
    UserCountry,
    UserAge,
    IpAddress,
    DeviceFingerprint,
    TransactionCount24h,
    AccountAge,
}

#[derive(Clone, Copy, PartialEq, Eq, Structural, Debug)]
pub enum Operator {
    Equals,
    NotEquals,
    GreaterThan,
    LessThan,
    GreaterThanOrEqual,
    LessThanOrEqual,
    Contains,
    In,
}

#[derive(Clone, Copy, PartialEq, Eq, Structural, Debug)]
pub enum LogicalOperator {
    And,
    Or,
}

pub open spec fn field_token(f: Field) -> Seq<char> {
    match f {
        Field::TransactionAmount => "transaction_amount"@,
        Field::TransactionCurrency => "transaction_currency"@,
        Field::UserCountry => "user_country"@,
        Field::UserAge => "user_age"@,
        Field::IpAddress => "ip_address"@,
        Field::DeviceFingerprint => "device_fingerprint"@,
        Field::TransactionCount24h => "transaction_count_24h"@,
        Field::AccountAge => "account_age"@,
    }
}

pub open spec fn field_label(f: Field) -> Seq<char> {
    match f {
        Field::TransactionAmount => "Transaction Amount"@,
        Field::TransactionCurrency => "Transaction Currency"@,
        Field::UserCountry => "User Country"@,
        Field::UserAge => "User Age"@,
        Field::IpAddress => "IP Address"@,
        Field::DeviceFingerprint => "Device Fingerprint"@,
        Field::TransactionCount24h => "Transaction Count (24h)"@,
        Field::AccountAge => "Account Age"@,
    }
}

/// The numeric class: amount, age, 24h count and account age. All other
/// fields are string-class.
pub open spec fn is_numeric_field(f: Field) -> bool {
    f == Field::TransactionAmount || f == Field::UserAge || f == Field::TransactionCount24h
        || f == Field::AccountAge
}

pub open spec fn all_fields() -> Seq<Field> {
    seq![
        Field::TransactionAmount,
        Field::TransactionCurrency,
        Field::UserCountry,
        Field::UserAge,
        Field::IpAddress,
        Field::DeviceFingerprint,
        Field::TransactionCount24h,
        Field::AccountAge,
    ]
}

impl Field {
    pub fn all() -> (r: Vec<Field>)
        ensures
            r@ == all_fields(),
    {
        let v = vec![
            Field::TransactionAmount,
            Field::TransactionCurrency,
            Field::UserCountry,
            Field::UserAge,
            Field::IpAddress,
            Field::DeviceFingerprint,
            Field::TransactionCount24h,
            Field::AccountAge,
        ];
        proof {
            assert(v@ =~= all_fields());
        }
        v
    }

    pub fn as_str(&self) -> (r: &'static str)
        ensures
            r@ == field_token(*self),
    {
        match self {
            Field::TransactionAmount => "transaction_amount",
            Field::TransactionCurrency => "transaction_currency",
            Field::UserCountry => "user_country",
            Field::UserAge => "user_age",
            Field::IpAddress => "ip_address",
            Field::DeviceFingerprint => "device_fingerprint",
            Field::TransactionCount24h => "transaction_count_24h",
            Field::AccountAge => "account_age",
        }
    }

    pub fn display_name(&self) -> (r: &'static str)
        ensures
            r@ == field_label(*self),
    {
        match self {
            Field::TransactionAmount => "Transaction Amount",
            Field::TransactionCurrency => "Transaction Currency",
            Field::UserCountry => "User Country",
            Field::UserAge => "User Age",
            Field::IpAddress => "IP Address",
            Field::DeviceFingerprint => "Device Fingerprint",
            Field::TransactionCount24h => "Transaction Count (24h)",
            Field::AccountAge => "Account Age",
        }
    }

    /// Decode a wire token; an unrecognized token is rejected, never defaulted.
    pub fn from_token(s: &str) -> (r: Option<Field>)
        ensures
            match r {
                Some(f) => s@ == field_token(f),
                None => forall|f: Field| s@ != field_token(f),
            },
    {
        if crate::outside::str_eq(s, "transaction_amount") {
            Some(Field::TransactionAmount)
        } else if crate::outside::str_eq(s, "transaction_currency") {
            Some(Field::TransactionCurrency)
        } else if crate::outside::str_eq(s, "user_country") {
            Some(Field::UserCountry)
        } else if crate::outside::str_eq(s, "user_age") {
            Some(Field::UserAge)
        } else if crate::outside::str_eq(s, "ip_address") {
            Some(Field::IpAddress)
        } else if crate::outside::str_eq(s, "device_fingerprint") {
            Some(Field::DeviceFingerprint)
        } else if crate::outside::str_eq(s, "transaction_count_24h") {
            Some(Field::TransactionCount24h)
        } else if crate::outside::str_eq(s, "account_age") {
            Some(Field::AccountAge)
        } else {
            None
        }
    }
}

pub open spec fn operator_token(o: Operator) -> Seq<char> {
    match o {
        Operator::Equals => "equals"@,
        Operator::NotEquals => "not_equals"@,
        Operator::GreaterThan => "greater_than"@,
        Operator::LessThan => "less_than"@,
        Operator::GreaterThanOrEqual => "greater_than_or_equal"@,
        Operator::LessThanOrEqual => "less_than_or_equal"@,
        Operator::Contains => "contains"@,
        Operator::In => "in"@,
    }
}

pub open spec fn operator_label(o: Operator) -> Seq<char> {
    match o {
        Operator::Equals => "Equals"@,
        Operator::NotEquals => "Not Equals"@,
        Operator::GreaterThan => "Greater Than"@,
        Operator::LessThan => "Less Than"@,
        Operator::GreaterThanOrEqual => "Greater Than or Equal"@,
        Operator::LessThanOrEqual => "Less Than or Equal"@,
        Operator::Contains => "Contains"@,
        Operator::In => "In"@,
    }
}

pub open spec fn all_operators() -> Seq<Operator> {
    seq![
        Operator::Equals,
        Operator::NotEquals,
        Operator::GreaterThan,
        Operator::LessThan,
        Operator::GreaterThanOrEqual,
        Operator::LessThanOrEqual,
        Operator::Contains,
        Operator::In,
    ]
}

/// The six operators legal for a numeric field or a numeric literal value.
pub open spec fn numeric_operators() -> Seq<Operator> {
    seq![
        Operator::Equals,
        Operator::NotEquals,
        Operator::GreaterThan,
        Operator::LessThan,
        Operator::GreaterThanOrEqual,
        Operator::LessThanOrEqual,
    ]
}

/// The four operators legal for a string field or a string literal value.
pub open spec fn string_operators() -> Seq<Operator> {
    seq![Operator::Equals, Operator::NotEquals, Operator::Contains, Operator::In]
}

impl Operator {
    pub fn all() -> (r: Vec<Operator>)
        ensures
            r@ == all_operators(),
    {
        let v = vec![
            Operator::Equals,
            Operator::NotEquals,
            Operator::GreaterThan,
            Operator::LessThan,
            Operator::GreaterThanOrEqual,
            Operator::LessThanOrEqual,
            Operator::Contains,
            Operator::In,
        ];
        proof {
            assert(v@ =~= all_operators());
        }
        v
    }

    pub fn as_str(&self) -> (r: &'static str)
        ensures
            r@ == operator_token(*self),
    {
        match self {
            Operator::Equals => "equals",
            Operator::NotEquals => "not_equals",
            Operator::GreaterThan => "greater_than",
            Operator::LessThan => "less_than",
            Operator::GreaterThanOrEqual => "greater_than_or_equal",
            Operator::LessThanOrEqual => "less_than_or_equal",
            Operator::Contains => "contains",
            Operator::In => "in",
        }
    }

    pub fn display_name(&self) -> (r: &'static str)
        ensures
            r@ == operator_label(*self),
    {
        match self {
            Operator::Equals => "Equals",
            Operator::NotEquals => "Not Equals",
            Operator::GreaterThan => "Greater Than",
            Operator::LessThan => "Less Than",
            Operator::GreaterThanOrEqual => "Greater Than or Equal",
            Operator::LessThanOrEqual => "Less Than or Equal",
            Operator::Contains => "Contains",
            Operator::In => "In",
        }
    }

    /// Decode a wire token; an unrecognized token is rejected, never defaulted.
    pub fn from_token(s: &str) -> (r: Option<Operator>)
        ensures
            match r {
                Some(o) => s@ == operator_token(o),
                None => forall|o: Operator| s@ != operator_token(o),
            },
    {
        if crate::outside::str_eq(s, "equals") {
            Some(Operator::Equals)
        } else if crate::outside::str_eq(s, "not_equals") {
            Some(Operator::NotEquals)
        } else if crate::outside::str_eq(s, "greater_than") {
            Some(Operator::GreaterThan)
        } else if crate::outside::str_eq(s, "less_than") {
            Some(Operator::LessThan)
        } else if crate::outside::str_eq(s, "greater_than_or_equal") {
            Some(Operator::GreaterThanOrEqual)
        } else if crate::outside::str_eq(s, "less_than_or_equal") {
            Some(Operator::LessThanOrEqual)
        } else if crate::outside::str_eq(s, "contains") {
            Some(Operator::Contains)
        } else if crate::outside::str_eq(s, "in") {
            Some(Operator::In)
        } else {
            None
        }
    }
}

/// The operators legal for a field by its class.
pub open spec fn spec_operators_for(f: Field) -> Seq<Operator> {
    if is_numeric_field(f) {
        numeric_operators()
    } else {
        string_operators()
    }
}

/// The operators legal for a field: the six comparison operators for the
/// numeric class, the four string operators otherwise.
pub fn operators_for(field: Field) -> (r: Vec<Operator>)
    ensures
        r@ == spec_operators_for(field),
{
    match field {
        Field::TransactionAmount | Field::UserAge | Field::TransactionCount24h
            | Field::AccountAge => {
            let v = vec![
                Operator::Equals,
                Operator::NotEquals,
                Operator::GreaterThan,
                Operator::LessThan,
                Operator::GreaterThanOrEqual,
                Operator::LessThanOrEqual,
            ];
            proof {
                assert(v@ =~= numeric_operators());
            }
            v
        },
        Field::TransactionCurrency | Field::UserCountry | Field::IpAddress
            | Field::DeviceFingerprint => {
            let v = vec![
                Operator::Equals,
                Operator::NotEquals,
                Operator::Contains,
                Operator::In,
            ];
            proof {
                assert(v@ =~= string_operators());
            }
            v
        },
    }
}

/// Which input widget a field's comparison value needs.
#[derive(Clone, Copy, PartialEq, Eq, Structural, Debug)]
pub enum ValueInputKind {
    Number,
    CurrencyText,
    CountryText,
    Text,
}

pub open spec fn spec_value_input_kind(f: Field) -> ValueInputKind {
    if is_numeric_field(f) {
        ValueInputKind::Number
    } else if f == Field::TransactionCurrency {
        ValueInputKind::CurrencyText
    } else if f == Field::UserCountry {
        ValueInputKind::CountryText
    } else {
        ValueInputKind::Text
    }
}

/// The input widget for a field: a number box for the numeric class, a text
/// box with currency or country suggestions where those fit, plain text
/// otherwise.
pub fn value_input_kind(field: Field) -> (r: ValueInputKind)
    ensures
        r == spec_value_input_kind(field),
{
    match field {
        Field::TransactionAmount | Field::UserAge | Field::TransactionCount24h
            | Field::AccountAge => ValueInputKind::Number,
        Field::TransactionCurrency => ValueInputKind::CurrencyText,
        Field::UserCountry => ValueInputKind::CountryText,
        Field::IpAddress | Field::DeviceFingerprint => ValueInputKind::Text,
    }
}

pub open spec fn logical_token(o: LogicalOperator) -> Seq<char> {
    match o {
        LogicalOperator::And => "AND"@,
        LogicalOperator::Or => "OR"@,
    }
}

impl LogicalOperator {
    pub fn as_str(&self) -> (r: &'static str)
        ensures
            r@ == logical_token(*self),
    {
        match self {
            LogicalOperator::And => "AND",
            LogicalOperator::Or => "OR",
        }
    }
}

} // verus!
