use crate::decl::Span;
use vstd::prelude::*;

verus! {

/// The kinds of failure a compilation run can end with.
#[derive(Clone, Copy, Debug, PartialEq, Eq, Structural)]
pub enum ErrorKind {
    /// An annotation whose `rem` is not after its `add`, or whose values are
    /// below the first version.
    MalformedVersion,
    /// A field's or variant field's range escapes the range of its container.
    ContainmentViolation,
    /// A version number above the largest one the compiler accepts.
    VersionOutOfBounds,
    /// Two same-named sibling items whose ranges may share a version.
    NameOverlap,
    /// A computed module (numbered from 1) holds no type.
    EmptyVersion { version: usize },
    /// An enum mixes integer variants with tuple or struct variants.
    EnumShapeConflict,
    /// A discriminant that is not above the running counter of its module.
    EnumDiscriminantOrder,
    /// A type name that no type of the module (numbered from 1) defines.
    DanglingReference { version: usize },
    /// A node used without a reference, a plain type used through one, or an
    /// `any` outside a reference.
    ReferenceKindMismatch,
}

/// The single error a failed compilation run reports.
#[derive(Clone, Copy, Debug, PartialEq, Eq, Structural)]
pub struct CompileError {
    pub kind: ErrorKind,
    /// The source location of the offending literal or name, where there is one.
    pub location: Option<Span>,
}

/// Whether an error kind is one that resolving the declarations reports:
/// a bad annotation, a version out of bounds, a name overlap or an enum
/// shape conflict.
pub open spec fn is_declaration_error(kind: ErrorKind) -> bool {
    ||| kind is MalformedVersion
    ||| kind is ContainmentViolation
    ||| kind is VersionOutOfBounds
    ||| kind is NameOverlap
    ||| kind is EnumShapeConflict
}

/// Whether an error kind is one that checking a computed module reports.
pub open spec fn is_module_error(kind: ErrorKind) -> bool {
    ||| kind is EmptyVersion
    ||| kind is EnumDiscriminantOrder
    ||| kind is DanglingReference
    ||| kind is ReferenceKindMismatch
}

pub open spec fn error_at(kind: ErrorKind, span: Span) -> CompileError {
    CompileError { kind, location: Some(span) }
}

impl CompileError {
    pub fn at(kind: ErrorKind, span: Span) -> (r: CompileError)
        ensures
            r == error_at(kind, span),
    {
        CompileError { kind, location: Some(span) }
    }
}

} // verus!
