//! The decoded value: five kinds, each with its own null.

use vstd::prelude::*;
use bigdecimal::BigDecimal;
use num_bigint::BigInt;

verus! {

/// A decoded scalar. `None` in a variant is that kind's typed null.
#[derive(Debug, PartialEq, Clone)]
pub enum AnionValue {
    /// `true`, `false`, `null.bool`
    Boolean(Option<bool>),
    /// Integers of any size, whatever the radix they were written in
    Integer(Option<BigInt>),
    /// The literal of a 64-bit float, ready for a float parser
    Float(Option<String>),
    /// Exact decimals, scale kept
    Decimal(Option<BigDecimal>),
    /// Text, escapes applied
    String(Option<String>),
}

/// What a value holds, with text as its characters.
pub enum ValueModel {
    Boolean(Option<bool>),
    Integer(Option<BigInt>),
    Float(Option<Seq<char>>),
    Decimal(Option<BigDecimal>),
    String(Option<Seq<char>>),
}

impl View for AnionValue {
    type V = ValueModel;

    open spec fn view(&self) -> ValueModel {
        match self {
            AnionValue::Boolean(b) => ValueModel::Boolean(*b),
            AnionValue::Integer(i) => ValueModel::Integer(*i),
            AnionValue::Float(Some(t)) => ValueModel::Float(Some(t@)),
            AnionValue::Float(None) => ValueModel::Float(None),
            AnionValue::Decimal(d) => ValueModel::Decimal(*d),
            AnionValue::String(Some(t)) => ValueModel::String(Some(t@)),
            AnionValue::String(None) => ValueModel::String(None),
        }
    }
}

/// A literal that the grammar accepted but whose text cannot become a value.
#[derive(Debug, PartialEq, Eq, Clone, Copy, Structural)]
pub enum DecodeError {
    /// A decimal exponent outside `i128`, or a scale outside `i64`
    DecimalOutOfRange,
    /// A `\x`, `\u` or `\U` escape that names no Unicode scalar value
    InvalidCodePoint,
}

} // verus!
