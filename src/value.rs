//! The data model shared by every encoder: a tree of values.
use vstd::prelude::*;

verus! {

/// One value of the data model.
pub enum Value {
    Bool(bool),
    Int(i64),
    UInt(u64),
    Char(char),
    Str(String),
    /// Raw binary data, which no text encoding here accepts.
    Bytes(Vec<u8>),
    Unit,
    /// An optional value that is not there.
    Absent,
    /// An optional value that is there.
    Present(Box<Value>),
    /// A unit struct or a type-keyed unit: rendered as an empty element.
    UnitStruct(String),
    /// A field-level enum value: rendered as its name in plain text.
    UnitVariant(String),
    /// A named wrapper around one value (newtype struct or variant).
    Newtype(String, Box<Value>),
    /// An ordered run of values, with no wrapper of its own.
    Sequence(Vec<Value>),
    /// Ordered key/value pairs; each key must reduce to a plain name.
    Mapping(Vec<(Value, Value)>),
    /// A struct: its type name and its fields in declared order.
    Struct(String, Vec<Field>),
}

/// One field of a struct.
pub enum Field {
    /// A field written inside an element of its name.
    Named(String, Value),
    /// A field whose content is written straight into the enclosing element.
    Spliced(Value),
}

/// The shapes of data that a text encoding refuses.
#[derive(Clone, Copy, Debug, PartialEq, Eq, Structural)]
pub enum Unsupported {
    /// Raw bytes where text is written.
    DataType,
    /// A key that does not reduce to a plain name.
    KeyType,
}

} // verus!
