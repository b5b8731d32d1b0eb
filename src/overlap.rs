//! Detection of same-named sibling items whose ranges may share a version.
use crate::decl::{EnumField, StructField, Type, VersionHeader};
use crate::error::{error_at, CompileError, ErrorKind};
use crate::range::Version;
use vstd::prelude::*;

verus! {

/// Whether two same-named items are provably never active in one version:
/// both are annotated, they start at different versions, and the one that
/// starts first ends no later than the other starts.
pub open spec fn disjoint(left_annotated: bool, left: Version, right_annotated: bool, right: Version) -> bool {
    &&& left_annotated
    &&& right_annotated
    &&& left.added != right.added
    &&& if left.added < right.added {
        left.removed matches Some(r) && r <= right.added
    } else {
        right.removed matches Some(r) && r <= left.added
    }
}

/// Which of two items is declared first does not change whether they are
/// found to overlap.
pub proof fn lemma_disjoint_symmetric(a_annotated: bool, a: Version, b_annotated: bool, b: Version)
    ensures
        disjoint(a_annotated, a, b_annotated, b) == disjoint(b_annotated, b, a_annotated, a),
{
}

/// Two items found disjoint share no version.
pub proof fn lemma_disjoint_sound(a_annotated: bool, a: Version, b_annotated: bool, b: Version, v: int)
    requires
        disjoint(a_annotated, a, b_annotated, b),
    ensures
        !(a.contains(v) && b.contains(v)),
{
}

/// An item that can be checked against its same-named siblings.
pub trait Sibling {
    spec fn spec_name(&self) -> Seq<char>;

    spec fn spec_header(&self) -> Option<VersionHeader>;

    spec fn spec_name_span(&self) -> crate::decl::Span;

    fn name(&self) -> (r: &String)
        ensures
            r@ == self.spec_name(),
    ;

    fn header(&self) -> (r: Option<VersionHeader>)
        ensures
            r == self.spec_header(),
    ;

    fn name_span(&self) -> (r: crate::decl::Span)
        ensures
            r == self.spec_name_span(),
    ;
}

impl Sibling for Type {
    open spec fn spec_name(&self) -> Seq<char> {
        match self {
            Type::Node(s) => s.name@,
            Type::Struct(s) => s.name@,
            Type::Enum(e) => e.name@,
        }
    }

    open spec fn spec_header(&self) -> Option<VersionHeader> {
        match self {
            Type::Node(s) => s.version,
            Type::Struct(s) => s.version,
            Type::Enum(e) => e.version,
        }
    }

    open spec fn spec_name_span(&self) -> crate::decl::Span {
        match self {
            Type::Node(s) => s.name_span,
            Type::Struct(s) => s.name_span,
            Type::Enum(e) => e.name_span,
        }
    }

    fn name(&self) -> (r: &String) {
        match self {
            Type::Node(s) => &s.name,
            Type::Struct(s) => &s.name,
            Type::Enum(e) => &e.name,
        }
    }

    fn header(&self) -> (r: Option<VersionHeader>) {
        match self {
            Type::Node(s) => s.version,
            Type::Struct(s) => s.version,
            Type::Enum(e) => e.version,
        }
    }

    fn name_span(&self) -> (r: crate::decl::Span) {
        match self {
            Type::Node(s) => s.name_span,
            Type::Struct(s) => s.name_span,
            Type::Enum(e) => e.name_span,
        }
    }
}

impl Sibling for StructField {
    open spec fn spec_name(&self) -> Seq<char> {
        self.name@
    }

    open spec fn spec_header(&self) -> Option<VersionHeader> {
        self.version
    }

    open spec fn spec_name_span(&self) -> crate::decl::Span {
        self.name_span
    }

    fn name(&self) -> (r: &String) {
        &self.name
    }

    fn header(&self) -> (r: Option<VersionHeader>) {
        self.version
    }

    fn name_span(&self) -> (r: crate::decl::Span) {
        self.name_span
    }
}

impl Sibling for EnumField {
    open spec fn spec_name(&self) -> Seq<char> {
        self.name@
    }

    open spec fn spec_header(&self) -> Option<VersionHeader> {
        self.version
    }

    open spec fn spec_name_span(&self) -> crate::decl::Span {
        self.name_span
    }

    fn name(&self) -> (r: &String) {
        &self.name
    }

    fn header(&self) -> (r: Option<VersionHeader>) {
        self.version
    }

    fn name_span(&self) -> (r: crate::decl::Span) {
        self.name_span
    }
}

/// Whether the item at `index` is disjoint from every earlier sibling that
/// shares its name.
pub open spec fn clear_of_earlier<T: Sibling>(items: Seq<T>, ranges: Seq<Version>, index: int) -> bool {
    forall|j: int|
        0 <= j < index && #[trigger] items[j].spec_name() == items[index].spec_name() ==> disjoint(
            items[j].spec_header() is Some,
            ranges[j],
            items[index].spec_header() is Some,
            ranges[index],
        )
}

/// Reports an overlap at `name_span` unless the two ranges are disjoint.
pub fn check_version_overlap(
    left_annotated: bool,
    left: Version,
    right_annotated: bool,
    right: Version,
    name_span: crate::decl::Span,
) -> (r: Result<(), CompileError>)
    ensures
        r is Ok <==> disjoint(left_annotated, left, right_annotated, right),
        r matches Err(e) ==> e == error_at(ErrorKind::NameOverlap, name_span),
{
    let error = Err(CompileError::at(ErrorKind::NameOverlap, name_span));
    if !left_annotated || !right_annotated {
        return error;
    }
    let (first, after) = if left.added < right.added {
        (left, right)
    } else if right.added < left.added {
        (right, left)
    } else {
        return error;
    };
    match first.removed {
        Some(r) => if after.added < r {
            error
        } else {
            Ok(())
        },
        None => error,
    }
}

/// Checks the item at `item_index` against every earlier same-named sibling;
/// `ranges` holds the effective ranges of the items up to `item_index`.
pub fn check_name_repeat<T: Sibling>(items: &[T], ranges: &Vec<Version>, item_index: usize) -> (r: Result<(), CompileError>)
    requires
        item_index < items@.len(),
        item_index < ranges@.len(),
    ensures
        r is Ok <==> clear_of_earlier(items@, ranges@, item_index as int),
        r matches Err(e) ==> e == error_at(ErrorKind::NameOverlap, items@[item_index as int].spec_name_span()),
{
    let item = &items[item_index];
    let name = item.name();
    let annotated = item.header().is_some();
    let span = item.name_span();
    let mut i: usize = 0;
    while i < item_index
        invariant
            i <= item_index,
            item_index < items@.len(),
            item_index < ranges@.len(),
            item == items@[item_index as int],
            name@ == item.spec_name(),
            annotated == (item.spec_header() is Some),
            span == item.spec_name_span(),
            forall|j: int|
                0 <= j < i && #[trigger] items@[j].spec_name() == items@[item_index as int].spec_name() ==> disjoint(
                    items@[j].spec_header() is Some,
                    ranges@[j],
                    items@[item_index as int].spec_header() is Some,
                    ranges@[item_index as int],
                ),
        decreases item_index - i,
    {
        let prev = &items[i];
        if prev.name().eq(name) {
            let res = check_version_overlap(prev.header().is_some(), ranges[i], annotated, ranges[item_index], span);
            if res.is_err() {
                assert(items@[i as int].spec_name() == items@[item_index as int].spec_name());
                return res;
            }
        }
        i += 1;
    }
    Ok(())
}

} // verus!
