//! The first pass over the declarations: resolves the range of every type,
//! field and variant struct field in source order, and checks names and enum
//! variant shapes as it goes.
use crate::decl::{EnumField, EnumFieldValue, Span, StructField, Type};
use crate::error::{error_at, is_declaration_error, CompileError, ErrorKind};
use crate::overlap::{check_name_repeat, disjoint, Sibling};
use crate::range::{check_version, resolve, Version};
use crate::timeline::{range_in_bounds, ResolvedField, ResolvedType, MAX_VERSION};
use vstd::prelude::*;

verus! {

/// The resolved range, or the initial range where resolution fails.
pub open spec fn range_or_initial(r: Result<Version, CompileError>) -> Version {
    match r {
        Ok(v) => v,
        Err(_) => Version::initial(),
    }
}

/// The range of the `j`th of `items`, all of which have `container` as their
/// container (`None` at top level).
pub open spec fn item_range<T: Sibling>(items: Seq<T>, container: Option<Version>, j: int) -> Version {
    range_or_initial(resolve(items[j].spec_header(), container))
}

/// Whether the `f`th of `items` resolves to a range within the accepted
/// versions and is disjoint from every earlier same-named sibling.
pub open spec fn item_ok<T: Sibling>(items: Seq<T>, container: Option<Version>, f: int) -> bool {
    &&& resolve(items[f].spec_header(), container) is Ok
    &&& range_in_bounds(item_range(items, container, f))
    &&& forall|j: int|
        0 <= j < f && #[trigger] items[j].spec_name() == items[f].spec_name() ==> disjoint(
            items[j].spec_header() is Some,
            item_range(items, container, j),
            items[f].spec_header() is Some,
            item_range(items, container, f),
        )
}

/// Whether every field of a record (or of a struct-shaped variant) whose
/// container has range `container` is valid.
pub open spec fn fields_ok(fields: Seq<StructField>, container: Version) -> bool {
    forall|f: int| 0 <= f < fields.len() ==> #[trigger] item_ok(fields, Some(container), f)
}

/// The shape class of a variant: 0 for a bare variant, 1 for an integer
/// discriminant, 2 for a tuple or struct shape.
pub open spec fn shape_class(v: EnumFieldValue) -> int {
    match v {
        EnumFieldValue::Unit => 0,
        EnumFieldValue::Int { .. } => 1,
        EnumFieldValue::Tuple(_) => 2,
        EnumFieldValue::Struct(_) => 2,
    }
}

/// Whether variant `f` agrees in shape class with every earlier variant.
pub open spec fn shape_agrees(variants: Seq<EnumField>, f: int) -> bool {
    forall|j: int|
        0 <= j < f && shape_class(#[trigger] variants[j].value) != 0 && shape_class(variants[f].value) != 0
            ==> shape_class(variants[j].value) == shape_class(variants[f].value)
}

/// Whether variant `f` of an enum with range `container` is valid, with its
/// struct fields if it has them.
pub open spec fn variant_ok(variants: Seq<EnumField>, container: Version, f: int) -> bool {
    &&& shape_agrees(variants, f)
    &&& item_ok(variants, Some(container), f)
    &&& variants[f].value matches EnumFieldValue::Struct(sf) ==> fields_ok(
        sf@,
        item_range(variants, Some(container), f),
    )
}

pub open spec fn variants_ok(variants: Seq<EnumField>, container: Version) -> bool {
    forall|f: int| 0 <= f < variants.len() ==> #[trigger] variant_ok(variants, container, f)
}

/// Whether the fields of a type with range `container` are valid.
pub open spec fn members_ok(ty: Type, container: Version) -> bool {
    match ty {
        Type::Node(s) => fields_ok(s.fields@, container),
        Type::Struct(s) => fields_ok(s.fields@, container),
        Type::Enum(e) => variants_ok(e.fields@, container),
    }
}

/// Whether every item of the file resolves to a range within the accepted
/// versions, no two same-named siblings may share a version, and no enum
/// mixes integer variants with tuple or struct variants.
pub open spec fn declarations_ok(types: Seq<Type>) -> bool {
    forall|t: int| 0 <= t < types.len() ==> #[trigger] type_ok(types, t)
}

/// Whether type `t` of `types` and all its members are valid.
pub open spec fn type_ok(types: Seq<Type>, t: int) -> bool {
    &&& item_ok(types, None, t)
    &&& members_ok(types[t], item_range(types, None, t))
}

/// Whether `rf` is the resolution of the `f`th of `fields`.
pub open spec fn field_resolved(rf: ResolvedField, fields: Seq<StructField>, container: Version, f: int) -> bool {
    &&& rf.range == item_range(fields, Some(container), f)
    &&& !rf.is_struct_variant
    &&& rf.inner@.len() == 0
}

/// Whether `rf` is the resolution of the `f`th of `variants`.
pub open spec fn variant_resolved(rf: ResolvedField, variants: Seq<EnumField>, container: Version, f: int) -> bool {
    &&& rf.range == item_range(variants, Some(container), f)
    &&& rf.is_struct_variant == (variants[f].value is Struct)
    &&& match variants[f].value {
        EnumFieldValue::Struct(sf) => {
            &&& rf.inner@.len() == sf@.len()
            &&& forall|s: int| 0 <= s < sf@.len() ==> #[trigger] rf.inner@[s] == item_range(sf@, Some(rf.range), s)
        },
        _ => rf.inner@.len() == 0,
    }
}

/// Whether `rt` is the resolution of type `t` of `types`.
pub open spec fn type_resolved(rt: ResolvedType, types: Seq<Type>, t: int) -> bool {
    &&& rt.range == item_range(types, None, t)
    &&& match types[t] {
        Type::Node(s) => rt.fields@.len() == s.fields@.len() && forall|f: int|
            0 <= f < s.fields@.len() ==> #[trigger] field_resolved(rt.fields@[f], s.fields@, rt.range, f),
        Type::Struct(s) => rt.fields@.len() == s.fields@.len() && forall|f: int|
            0 <= f < s.fields@.len() ==> #[trigger] field_resolved(rt.fields@[f], s.fields@, rt.range, f),
        Type::Enum(e) => rt.fields@.len() == e.fields@.len() && forall|f: int|
            0 <= f < e.fields@.len() ==> #[trigger] variant_resolved(rt.fields@[f], e.fields@, rt.range, f),
    }
}

/// The error that item `f` of `items` reports where it is not valid: the
/// first fault of its annotation, or else a range out of bounds at its name,
/// or else an overlap at its name.
pub open spec fn item_error<T: Sibling>(items: Seq<T>, container: Option<Version>, f: int) -> CompileError {
    match resolve(items[f].spec_header(), container) {
        Err(e) => e,
        Ok(v) => if !range_in_bounds(v) {
            error_at(ErrorKind::VersionOutOfBounds, items[f].spec_name_span())
        } else {
            error_at(ErrorKind::NameOverlap, items[f].spec_name_span())
        },
    }
}

/// The first field of `fields` that is not valid.
pub open spec fn first_bad_field(fields: Seq<StructField>, container: Version) -> int {
    choose|f: int|
        0 <= f < fields.len() && !item_ok(fields, Some(container), f) && forall|j: int|
            0 <= j < f ==> #[trigger] item_ok(fields, Some(container), j)
}

/// The error that a list of fields that is not valid reports: that of its
/// first field that is not valid.
pub open spec fn fields_error(fields: Seq<StructField>, container: Version) -> CompileError {
    item_error(fields, Some(container), first_bad_field(fields, container))
}

/// The error that variant `f` reports where it is not valid: a shape
/// conflict at its name, or else its own error as an item, or else that of
/// its struct fields.
pub open spec fn variant_error(variants: Seq<EnumField>, container: Version, f: int) -> CompileError {
    if !shape_agrees(variants, f) {
        error_at(ErrorKind::EnumShapeConflict, variants[f].name_span)
    } else if !item_ok(variants, Some(container), f) {
        item_error(variants, Some(container), f)
    } else {
        match variants[f].value {
            EnumFieldValue::Struct(sf) => fields_error(sf@, item_range(variants, Some(container), f)),
            // A variant of another shape that passes both checks is valid.
            _ => error_at(ErrorKind::NameOverlap, variants[f].name_span),
        }
    }
}

pub open spec fn first_bad_variant(variants: Seq<EnumField>, container: Version) -> int {
    choose|f: int|
        0 <= f < variants.len() && !variant_ok(variants, container, f) && forall|j: int|
            0 <= j < f ==> #[trigger] variant_ok(variants, container, j)
}

pub open spec fn variants_error(variants: Seq<EnumField>, container: Version) -> CompileError {
    variant_error(variants, container, first_bad_variant(variants, container))
}

pub open spec fn members_error(ty: Type, container: Version) -> CompileError {
    match ty {
        Type::Node(s) => fields_error(s.fields@, container),
        Type::Struct(s) => fields_error(s.fields@, container),
        Type::Enum(e) => variants_error(e.fields@, container),
    }
}

/// The error that type `t` reports where it is not valid: the first fault
/// of its annotation, or else a range out of bounds at its name, or else
/// the error of its members, or else an overlap at its name.
pub open spec fn type_error(types: Seq<Type>, t: int) -> CompileError {
    match resolve(types[t].spec_header(), None) {
        Err(e) => e,
        Ok(v) => if !range_in_bounds(v) {
            error_at(ErrorKind::VersionOutOfBounds, types[t].spec_name_span())
        } else if !members_ok(types[t], v) {
            members_error(types[t], v)
        } else {
            error_at(ErrorKind::NameOverlap, types[t].spec_name_span())
        },
    }
}

pub open spec fn first_bad_type(types: Seq<Type>) -> int {
    choose|t: int| 0 <= t < types.len() && !type_ok(types, t) && forall|j: int| 0 <= j < t ==> #[trigger] type_ok(types, j)
}

/// The error that a file whose declarations are not valid reports: that of
/// its first type that is not valid, in source order.
pub open spec fn declarations_error(types: Seq<Type>) -> CompileError {
    type_error(types, first_bad_type(types))
}

fn check_bounds(r: Version, span: Span) -> (res: Result<(), CompileError>)
    ensures
        res is Ok <==> range_in_bounds(r),
        res matches Err(e) ==> e == error_at(ErrorKind::VersionOutOfBounds, span),
{
    if r.added > MAX_VERSION {
        return Err(CompileError::at(ErrorKind::VersionOutOfBounds, span));
    }
    if let Some(x) = r.removed {
        if x > MAX_VERSION {
            return Err(CompileError::at(ErrorKind::VersionOutOfBounds, span));
        }
    }
    Ok(())
}

/// Resolves item `index` of `items` against its container, checks it
/// against its earlier siblings, and appends its range to `ranges`, which
/// holds those of the earlier siblings.
pub fn add_item<T: Sibling>(items: &[T], index: usize, container: Option<Version>, ranges: &mut Vec<Version>) -> (r: Result<Version, CompileError>)
    requires
        index < items@.len(),
        old(ranges)@.len() == index,
        forall|j: int| 0 <= j < index ==> old(ranges)@[j] == item_range(items@, container, j),
    ensures
        r matches Err(e) ==> is_declaration_error(e.kind) && e == item_error(items@, container, index as int),
        r is Ok <==> item_ok(items@, container, index as int),
        r matches Ok(v) ==> {
            &&& v == item_range(items@, container, index as int)
            &&& final(ranges)@ == old(ranges)@.push(v)
        },
{
    let item = &items[index];
    let v = check_version(item.header(), container)?;
    check_bounds(v, item.name_span())?;
    ranges.push(v);
    let res = check_name_repeat(items, ranges, index);
    assert(forall|j: int| 0 <= j <= index ==> ranges@[j] == item_range(items@, container, j));
    match res {
        Ok(()) => Ok(v),
        Err(e) => Err(e),
    }
}

/// Resolves the fields of a record, or of a struct-shaped variant, whose
/// container has range `container`.
pub fn resolve_fields(fields: &Vec<StructField>, container: Version) -> (r: Result<Vec<Version>, CompileError>)
    ensures
        r matches Err(e) ==> is_declaration_error(e.kind) && e == fields_error(fields@, container),
        r is Ok <==> fields_ok(fields@, container),
        r matches Ok(v) ==> v@ == Seq::new(fields@.len(), |f: int| item_range(fields@, Some(container), f)),
{
    let mut ranges: Vec<Version> = Vec::new();
    let mut f: usize = 0;
    while f < fields.len()
        invariant
            f <= fields@.len(),
            ranges@.len() == f,
            forall|j: int| 0 <= j < f ==> ranges@[j] == item_range(fields@, Some(container), j),
            forall|j: int| 0 <= j < f ==> #[trigger] item_ok(fields@, Some(container), j),
        decreases fields@.len() - f,
    {
        match add_item(fields.as_slice(), f, Some(container), &mut ranges) {
            Ok(_) => {},
            Err(e) => {
                proof {
                    let g = first_bad_field(fields@, container);
                    assert(0 <= g < fields@.len() && !item_ok(fields@, Some(container), g) && forall|j: int|
                        0 <= j < g ==> #[trigger] item_ok(fields@, Some(container), j));
                    if g < f {
                        assert(item_ok(fields@, Some(container), g));
                    } else if g > f {
                        assert(item_ok(fields@, Some(container), f as int));
                    }
                }
                return Err(e);
            },
        }
        f += 1;
    }
    assert(ranges@ =~= Seq::new(fields@.len(), |f: int| item_range(fields@, Some(container), f)));
    Ok(ranges)
}

/// Resolves the fields of a record type with range `container`.
pub fn add_struct(fields: &Vec<StructField>, container: Version) -> (r: Result<Vec<ResolvedField>, CompileError>)
    ensures
        r matches Err(e) ==> is_declaration_error(e.kind) && e == fields_error(fields@, container),
        r is Ok <==> fields_ok(fields@, container),
        r matches Ok(v) ==> {
            &&& v@.len() == fields@.len()
            &&& forall|f: int| 0 <= f < fields@.len() ==> #[trigger] field_resolved(v@[f], fields@, container, f)
        },
{
    let ranges = resolve_fields(fields, container)?;
    let mut out: Vec<ResolvedField> = Vec::new();
    let mut f: usize = 0;
    while f < ranges.len()
        invariant
            f <= ranges@.len(),
            ranges@ == Seq::new(fields@.len(), |f: int| item_range(fields@, Some(container), f)),
            out@.len() == f,
            forall|j: int| 0 <= j < f ==> #[trigger] field_resolved(out@[j], fields@, container, j),
        decreases ranges@.len() - f,
    {
        out.push(ResolvedField { range: ranges[f], is_struct_variant: false, inner: Vec::new() });
        f += 1;
    }
    Ok(out)
}

fn shape_class_of(value: &EnumFieldValue) -> (c: u8)
    ensures
        c as int == shape_class(*value),
{
    match value {
        EnumFieldValue::Unit => 0,
        EnumFieldValue::Int { .. } => 1,
        EnumFieldValue::Tuple(_) => 2,
        EnumFieldValue::Struct(_) => 2,
    }
}

/// Resolves the variants of an enum type with range `container`, with the
/// fields of its struct-shaped variants.
pub fn add_enum(variants: &Vec<EnumField>, container: Version) -> (r: Result<Vec<ResolvedField>, CompileError>)
    ensures
        r matches Err(e) ==> is_declaration_error(e.kind) && e == variants_error(variants@, container),
        r is Ok <==> variants_ok(variants@, container),
        r matches Ok(v) ==> {
            &&& v@.len() == variants@.len()
            &&& forall|f: int| 0 <= f < variants@.len() ==> #[trigger] variant_resolved(v@[f], variants@, container, f)
        },
{
    let mut ranges: Vec<Version> = Vec::new();
    let mut out: Vec<ResolvedField> = Vec::new();
    let mut class: u8 = 0;
    let ghost mut first: int = 0;
    let mut f: usize = 0;
    while f < variants.len()
        invariant
            f <= variants@.len(),
            ranges@.len() == f,
            out@.len() == f,
            forall|j: int| 0 <= j < f ==> ranges@[j] == item_range(variants@, Some(container), j),
            forall|j: int| 0 <= j < f ==> #[trigger] variant_ok(variants@, container, j),
            forall|j: int| 0 <= j < f ==> #[trigger] variant_resolved(out@[j], variants@, container, j),
            forall|j: int| 0 <= j < f && shape_class(#[trigger] variants@[j].value) != 0 ==> shape_class(variants@[j].value) == class as int,
            class != 0 ==> 0 <= first < f && shape_class(variants@[first].value) == class as int,
            class <= 2,
        decreases variants@.len() - f,
    {
        let variant = &variants[f];
        let c = shape_class_of(&variant.value);
        if c != 0 {
            if class == 0 {
                class = c;
                proof {
                    first = f as int;
                }
            } else if class != c {
                assert(!shape_agrees(variants@, f as int)) by {
                    assert(shape_class(variants@[first].value) != 0);
                }
                assert(!variant_ok(variants@, container, f as int));
                return Err(CompileError::at(ErrorKind::EnumShapeConflict, variant.name_span));
            }
        }
        assert(shape_agrees(variants@, f as int));
        let v = match add_item(variants.as_slice(), f, Some(container), &mut ranges) {
            Ok(v) => v,
            Err(e) => {
                assert(!variant_ok(variants@, container, f as int));
                return Err(e);
            },
        };
        let resolved = match &variant.value {
            EnumFieldValue::Struct(sf) => {
                let inner = match resolve_fields(sf, v) {
                    Ok(inner) => inner,
                    Err(e) => {
                        assert(!variant_ok(variants@, container, f as int));
                        return Err(e);
                    },
                };
                ResolvedField { range: v, is_struct_variant: true, inner }
            },
            _ => ResolvedField { range: v, is_struct_variant: false, inner: Vec::new() },
        };
        out.push(resolved);
        assert(variant_resolved(out@[f as int], variants@, container, f as int));
        f += 1;
    }
    Ok(out)
}

/// Resolves type `t` and its members, then checks it against the earlier
/// same-named types; `ranges` holds the ranges of the earlier types.
pub fn add_type(types: &[Type], t: usize, ranges: &mut Vec<Version>) -> (r: Result<ResolvedType, CompileError>)
    requires
        t < types@.len(),
        old(ranges)@.len() == t,
        forall|j: int| 0 <= j < t ==> old(ranges)@[j] == item_range(types@, None, j),
    ensures
        r matches Err(e) ==> is_declaration_error(e.kind) && e == type_error(types@, t as int),
        r is Ok <==> type_ok(types@, t as int),
        r matches Ok(rt) ==> {
            &&& type_resolved(rt, types@, t as int)
            &&& final(ranges)@ == old(ranges)@.push(rt.range)
        },
{
    let ty = &types[t];
    let v = check_version(ty.header(), None)?;
    check_bounds(v, ty.name_span())?;
    let fields = match ty {
        Type::Node(s) => add_struct(&s.fields, v)?,
        Type::Struct(s) => add_struct(&s.fields, v)?,
        Type::Enum(e) => add_enum(&e.fields, v)?,
    };
    ranges.push(v);
    let res = check_name_repeat(types, ranges, t);
    assert(forall|j: int| 0 <= j <= t ==> ranges@[j] == item_range(types@, None, j));
    match res {
        Ok(()) => Ok(ResolvedType { range: v, fields }),
        Err(e) => Err(e),
    }
}

/// Resolves every declaration in source order, stopping at the first fault.
pub fn resolve_types(types: &[Type]) -> (r: Result<Vec<ResolvedType>, CompileError>)
    ensures
        r matches Err(e) ==> is_declaration_error(e.kind) && e == declarations_error(types@),
        r is Ok <==> declarations_ok(types@),
        r matches Ok(rs) ==> {
            &&& rs@.len() == types@.len()
            &&& forall|t: int| 0 <= t < types@.len() ==> #[trigger] type_resolved(rs@[t], types@, t)
        },
{
    let mut ranges: Vec<Version> = Vec::new();
    let mut out: Vec<ResolvedType> = Vec::new();
    let mut t: usize = 0;
    while t < types.len()
        invariant
            t <= types@.len(),
            ranges@.len() == t,
            out@.len() == t,
            forall|j: int| 0 <= j < t ==> ranges@[j] == item_range(types@, None, j),
            forall|j: int| 0 <= j < t ==> #[trigger] type_ok(types@, j),
            forall|j: int| 0 <= j < t ==> #[trigger] type_resolved(out@[j], types@, j),
        decreases types@.len() - t,
    {
        let rt = match add_type(types, t, &mut ranges) {
            Ok(rt) => rt,
            Err(e) => {
                assert(!type_ok(types@, t as int));
                proof {
                    let g = first_bad_type(types@);
                    assert(0 <= g < types@.len() && !type_ok(types@, g) && forall|j: int| 0 <= j < g ==> #[trigger] type_ok(types@, j));
                    if g < t {
                        assert(type_ok(types@, g));
                    } else if g > t {
                        assert(type_ok(types@, t as int));
                    }
                }
                return Err(e);
            },
        };
        out.push(rt);
        assert(type_ok(types@, t as int));
        t += 1;
    }
    Ok(out)
}

} // verus!
