//! The closed model of a structured value, as handed to the form encoder.

use vstd::prelude::*;

verus! {

/// A structured value: every shape that a request object can take.
#[derive(Debug)]
pub enum Value {
    /// Nothing at all; encodes to no pairs.
    Unit,
    Bool(bool),
    /// A signed integer, of any width up to 64 bits.
    Int(i64),
    /// An unsigned integer, of any width up to 64 bits.
    UInt(u64),
    Char(char),
    Str(String),
    /// A byte string, emitted as one value.
    Bytes(Vec<u8>),
    /// Present (`Some`) or absent (`None`).
    Optional(Option<Box<Value>>),
    /// An ordered list of elements.
    Sequence(Vec<Value>),
    /// Key/value entries in iteration order.
    Mapping(Vec<(Value, Value)>),
    /// Named fields in declaration order.
    Struct(Vec<(String, Value)>),
    /// An enum variant without data, named.
    UnitVariant(String),
    /// An enum variant wrapping one value.
    NewtypeVariant(String, Box<Value>),
    /// An enum variant with named fields.
    StructVariant(String, Vec<(String, Value)>),
}

/// The shape of a map key that cannot be reduced to a key segment.
#[derive(PartialEq, Eq, Structural, Clone, Copy, Debug)]
pub enum KeyKind {
    Int,
    UInt,
    Bytes,
    Unit,
    Optional,
    Sequence,
    Mapping,
    Struct,
    Variant,
}

/// Why a value could not be encoded.
#[derive(PartialEq, Eq, Structural, Clone, Copy, Debug)]
pub enum EncodeError {
    /// A map key is not a boolean, a character or a string.
    UnsupportedKeyType(KeyKind),
}

impl EncodeError {
    /// A readable description of the error.
    pub fn message(&self) -> (r: String)
        ensures
            r@ == "unsupported key type for nested form key"@,
    {
        match self {
            EncodeError::UnsupportedKeyType(_) => String::from_str("unsupported key type for nested form key"),
        }
    }
}

} // verus!
