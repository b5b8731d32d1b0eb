//! The already-parsed declarations of one schema file.
use vstd::prelude::*;

verus! {

/// A source location.
#[derive(Clone, Copy, Debug, PartialEq, Eq, Structural)]
pub struct Span {
    pub line: u32,
    pub column: u32,
}

/// One `add(n)` or `rem(n)` literal of a version annotation.
#[derive(Clone, Copy, Debug, PartialEq, Eq, Structural)]
pub struct VersionItem {
    pub num: u32,
    pub span: Span,
}

/// An explicit version annotation: `add`, `rem`, or both.
#[derive(Clone, Copy, Debug, PartialEq, Eq, Structural)]
pub struct VersionHeader {
    pub added: Option<VersionItem>,
    pub removed: Option<VersionItem>,
}

#[derive(Clone, Copy, Debug, PartialEq, Eq, Structural)]
pub enum Primitive {
    Int8,
    Int16,
    Int32,
    Int64,
    UInt8,
    UInt16,
    UInt32,
    UInt64,
    Float32,
    Float64,
    Boolean,
    String,
    /// Any node type; legal only directly inside a reference.
    Any,
}

/// The shape of a field's value.
#[derive(Debug)]
pub enum ValueType {
    /// Another declared type, by name.
    Composite(String),
    Optional(Box<Value>),
    Reference(Box<Value>),
    Array(Box<Value>, u32),
    Slice(Box<Value>),
    Tuple(Vec<Value>),
    Primitive(Primitive),
}

#[derive(Debug)]
pub struct Value {
    pub value_type: ValueType,
    pub span: Span,
}

#[derive(Debug)]
pub struct StructField {
    pub name: String,
    pub name_span: Span,
    pub version: Option<VersionHeader>,
    pub value: Value,
}

#[derive(Debug)]
pub struct Struct {
    pub name: String,
    pub name_span: Span,
    pub version: Option<VersionHeader>,
    pub fields: Vec<StructField>,
}

#[derive(Debug)]
pub enum EnumFieldValue {
    Int { num: u32, num_span: Span },
    Struct(Vec<StructField>),
    Tuple(Vec<Value>),
    Unit,
}

#[derive(Debug)]
pub struct EnumField {
    pub name: String,
    pub name_span: Span,
    pub version: Option<VersionHeader>,
    pub value: EnumFieldValue,
}

#[derive(Debug)]
pub struct Enum {
    pub name: String,
    pub name_span: Span,
    pub version: Option<VersionHeader>,
    pub fields: Vec<EnumField>,
}

/// One top-level declaration; its identity is its index in the file.
#[derive(Debug)]
pub enum Type {
    /// A record that may only be reached through a reference.
    Node(Struct),
    Struct(Struct),
    Enum(Enum),
}

} // verus!
