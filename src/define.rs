//! The stored form of a compiled schema definition, as a repository keeps
//! it.
use vstd::prelude::*;

verus! {

/// A compiled definition: the address of its schema, its version, and its
/// types.
#[derive(Debug, PartialEq, Eq)]
pub struct Definition {
    pub url: String,
    pub version: u16,
    pub types: Vec<Type>,
}

#[derive(Debug, PartialEq, Eq)]
pub enum Type {
    Object(Object),
    Struct(Struct),
    Enum(Enum),
}

#[derive(Debug, PartialEq, Eq)]
pub struct Object {
    pub name: String,
    pub fields: Vec<StructField>,
}

#[derive(Debug, PartialEq, Eq)]
pub struct Struct {
    pub name: String,
    pub fields: Vec<StructField>,
}

#[derive(Debug, PartialEq, Eq)]
pub struct StructField {
    pub name: String,
    pub field_type: FieldType,
}

#[derive(Debug, PartialEq, Eq)]
pub struct Enum {
    pub name: String,
    pub fields: Vec<EnumField>,
}

#[derive(Debug, PartialEq, Eq)]
pub struct EnumField {
    pub name: String,
    pub field_type: EnumFieldType,
}

#[derive(Debug, PartialEq, Eq)]
pub enum EnumFieldType {
    Unit,
    Int(EnumIntType),
    Tuple(Vec<FieldType>),
    Struct(Vec<StructField>),
}

#[derive(Clone, Copy, Debug, PartialEq, Eq, Structural)]
pub enum EnumIntType {
    Int8(i8),
    Int16(i16),
    Int32(i32),
    Int64(i64),
    UInt8(u8),
    UInt16(u16),
    UInt32(u32),
    UInt64(u64),
}

/// The type of a struct field or of a tuple variant's element.
#[derive(Debug, PartialEq, Eq)]
pub enum FieldType {
    /// The index of a type of the definition.
    Type(usize),
    Optional(Box<FieldType>),
    Reference(Reference),
    Array { element_type: Box<FieldType>, size: u64 },
    Slice(Box<FieldType>),
    Tuple(Vec<FieldType>),
    Primitive(Primitive),
}

#[derive(Clone, Copy, Debug, PartialEq, Eq, Structural)]
pub enum Reference {
    /// The index of the object type referred to.
    Object(usize),
    Any,
}

#[derive(Clone, Copy, Debug, PartialEq, Eq, Structural)]
pub enum Primitive {
    Int8,
    Int16,
    Int32,
    Int64,
    UInt8,
    UInt16,
    UInt32,
    UInt64,
    Float32,
    Float64,
    Boolean,
    String,
}

} // verus!
