//! The building blocks of a version constraint: numeric fields, comparison
//! operators and the connectors that join constraints.
use vstd::prelude::*;
use crate::text::{decimal, push_char, push_decimal};

verus! {

/// One of major, minor or patch: a concrete number or a wildcard.
#[derive(Debug, Clone, Copy, PartialEq, Eq, Structural)]
pub enum VersionField {
    Exact(u64),
    Wildcard,
}

/// How a constraint's fields bound a candidate version.
#[derive(Debug, Clone, Copy, PartialEq, Eq, Structural)]
pub enum Operator {
    Equal,
    GreaterThan,
    GreaterThanOrEqual,
    LessThan,
    LessThanOrEqual,
    Caret,
    Tilde,
}

/// How the constraints of one group are joined.
#[derive(Debug, Clone, Copy, PartialEq, Eq, Structural)]
pub enum Connector {
    And,
    Or,
}

/// A field written out: its number in decimal, or `*`.
pub open spec fn field_text(f: VersionField) -> Seq<char> {
    match f {
        VersionField::Exact(n) => decimal(n as nat),
        VersionField::Wildcard => seq!['*'],
    }
}

/// The symbol of an operator; equality has none in canonical text.
pub open spec fn operator_text(op: Operator) -> Seq<char> {
    match op {
        Operator::Equal => seq!['='],
        Operator::GreaterThan => seq!['>'],
        Operator::GreaterThanOrEqual => seq!['>', '='],
        Operator::LessThan => seq!['<'],
        Operator::LessThanOrEqual => seq!['<', '='],
        Operator::Caret => seq!['^'],
        Operator::Tilde => seq!['~'],
    }
}

/// A field of a constraint admits a candidate's field when it is a wildcard
/// or the two are the same number.
pub open spec fn field_admits(f: VersionField, candidate: VersionField) -> bool {
    f == VersionField::Wildcard || f == candidate
}

impl VersionField {
    /// Whether this field admits the candidate's field.
    pub fn admits(&self, candidate: &VersionField) -> (r: bool)
        ensures
            r == field_admits(*self, *candidate),
    {
        match self {
            VersionField::Wildcard => true,
            VersionField::Exact(n) => match candidate {
                VersionField::Exact(m) => *n == *m,
                VersionField::Wildcard => false,
            },
        }
    }

    /// Appends the text of this field to `s`.
    pub fn write_to(&self, s: &mut String)
        ensures
            final(s)@ == old(s)@ + field_text(*self),
    {
        match self {
            VersionField::Exact(n) => push_decimal(s, *n),
            VersionField::Wildcard => {
                push_char(s, '*');
                assert(final(s)@ =~= old(s)@ + field_text(*self));
            },
        }
    }

    /// The text of this field.
    pub fn to_string(&self) -> (r: String)
        ensures
            r@ == field_text(*self),
    {
        let mut s = String::new();
        self.write_to(&mut s);
        assert(s@ =~= field_text(*self));
        s
    }
}

impl Operator {
    /// Appends the symbol of this operator to `s`.
    pub fn write_to(&self, s: &mut String)
        ensures
            final(s)@ == old(s)@ + operator_text(*self),
    {
        match self {
            Operator::Equal => push_char(s, '='),
            Operator::GreaterThan => push_char(s, '>'),
            Operator::GreaterThanOrEqual => {
                push_char(s, '>');
                push_char(s, '=');
            },
            Operator::LessThan => push_char(s, '<'),
            Operator::LessThanOrEqual => {
                push_char(s, '<');
                push_char(s, '=');
            },
            Operator::Caret => push_char(s, '^'),
            Operator::Tilde => push_char(s, '~'),
        }
        assert(final(s)@ =~= old(s)@ + operator_text(*self));
    }

    /// The symbol of this operator.
    pub fn to_string(&self) -> (r: String)
        ensures
            r@ == operator_text(*self),
    {
        let mut s = String::new();
        self.write_to(&mut s);
        assert(s@ =~= operator_text(*self));
        s
    }
}

} // verus!
