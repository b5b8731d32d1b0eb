//! The checks run on every computed module: it must hold a type, every type
//! name a field uses must name a type of the module of the right kind, and
//! the discriminants of every enum must increase.
use crate::decl::{EnumFieldValue, Primitive, StructField, Type, Value, ValueType};
use crate::error::{error_at, is_module_error, CompileError, ErrorKind};
use crate::overlap::Sibling;
use crate::timeline::{FieldIndex, Module, TypeIndex};
use vstd::prelude::*;

verus! {

broadcast use vstd::std_specs::vec::group_vec_axioms;

pub open spec fn is_node(ty: Type) -> bool {
    ty is Node
}

/// Whether the first type of the first `n` slots of `slots` that is named
/// `name` is a node; `None` where no such type is active.
pub open spec fn lookup(types: Seq<Type>, slots: Seq<TypeIndex>, name: Seq<char>, n: int) -> Option<bool>
    decreases n,
{
    if n <= 0 {
        None
    } else {
        match lookup(types, slots, name, n - 1) {
            Some(b) => Some(b),
            None => {
                let i = slots[n - 1].index as int;
                if i < types.len() && types[i].spec_name() == name {
                    Some(is_node(types[i]))
                } else {
                    None
                }
            },
        }
    }
}

/// Whether a field value is legal in a module whose active type slots are
/// `slots`; `expects_node` holds directly inside a reference. A named type
/// must be active in the module and be a node exactly where a reference
/// encloses it; `any` stands only directly inside a reference, and nothing
/// but a name or `any` does.
pub open spec fn value_ok(types: Seq<Type>, slots: Seq<TypeIndex>, v: Value, expects_node: bool) -> bool
    decreases v,
{
    match v.value_type {
        ValueType::Composite(name) => lookup(types, slots, name@, slots.len() as int) == Some(expects_node),
        ValueType::Primitive(p) => (p is Any) == expects_node,
        ValueType::Reference(x) => !expects_node && value_ok(types, slots, *x, true),
        ValueType::Optional(x) => !expects_node && value_ok(types, slots, *x, false),
        ValueType::Array(x, _) => !expects_node && value_ok(types, slots, *x, false),
        ValueType::Slice(x) => !expects_node && value_ok(types, slots, *x, false),
        ValueType::Tuple(xs) => !expects_node && forall|i: int|
            0 <= i < xs@.len() ==> value_ok(types, slots, #[trigger] xs@[i], false),
    }
}

/// One of the two passes over a module's values. The first
/// (`names_pass == false`) checks the kind of every reference to an active
/// type and where `any` and references stand; the second checks that every
/// named type is active in the module.
pub open spec fn value_pass_ok(types: Seq<Type>, slots: Seq<TypeIndex>, v: Value, expects_node: bool, names_pass: bool) -> bool
    decreases v,
{
    match v.value_type {
        ValueType::Composite(name) => if names_pass {
            lookup(types, slots, name@, slots.len() as int) is Some
        } else {
            lookup(types, slots, name@, slots.len() as int) matches Some(node) ==> node == expects_node
        },
        ValueType::Primitive(p) => names_pass || (p is Any) == expects_node,
        ValueType::Reference(x) => (names_pass || !expects_node) && value_pass_ok(types, slots, *x, true, names_pass),
        ValueType::Optional(x) => (names_pass || !expects_node) && value_pass_ok(types, slots, *x, false, names_pass),
        ValueType::Array(x, _) => (names_pass || !expects_node) && value_pass_ok(types, slots, *x, false, names_pass),
        ValueType::Slice(x) => (names_pass || !expects_node) && value_pass_ok(types, slots, *x, false, names_pass),
        ValueType::Tuple(xs) => (names_pass || !expects_node) && forall|i: int|
            0 <= i < xs@.len() ==> value_pass_ok(types, slots, #[trigger] xs@[i], false, names_pass),
    }
}

/// The first value of `xs` that fails the given pass outside a reference.
pub open spec fn first_bad_value(types: Seq<Type>, slots: Seq<TypeIndex>, xs: Seq<Value>, names_pass: bool) -> int {
    choose|i: int|
        0 <= i < xs.len() && !value_pass_ok(types, slots, xs[i], false, names_pass) && forall|j: int|
            0 <= j < i ==> value_pass_ok(types, slots, #[trigger] xs[j], false, names_pass)
}

/// The error that a value failing the given pass reports: at the first
/// part of it, in reading order, that fails; a name the module lacks is
/// dangling in version `version`, anything else is a kind mismatch.
pub open spec fn value_error(
    types: Seq<Type>,
    slots: Seq<TypeIndex>,
    v: Value,
    expects_node: bool,
    names_pass: bool,
    version: usize,
) -> CompileError
    decreases v,
{
    let mismatch = error_at(ErrorKind::ReferenceKindMismatch, v.span);
    let misplaced = expects_node && !names_pass;
    match v.value_type {
        ValueType::Composite(_) => if names_pass {
            error_at(ErrorKind::DanglingReference { version }, v.span)
        } else {
            mismatch
        },
        ValueType::Primitive(_) => mismatch,
        ValueType::Reference(x) => if misplaced {
            mismatch
        } else {
            value_error(types, slots, *x, true, names_pass, version)
        },
        ValueType::Optional(x) => if misplaced {
            mismatch
        } else {
            value_error(types, slots, *x, false, names_pass, version)
        },
        ValueType::Array(x, _) => if misplaced {
            mismatch
        } else {
            value_error(types, slots, *x, false, names_pass, version)
        },
        ValueType::Slice(x) => if misplaced {
            mismatch
        } else {
            value_error(types, slots, *x, false, names_pass, version)
        },
        ValueType::Tuple(xs) => {
            let i = first_bad_value(types, slots, xs@, names_pass);
            if misplaced || !(0 <= i < xs@.len()) {
                mismatch
            } else {
                value_error(types, slots, xs@[i], false, names_pass, version)
            }
        },
    }
}

/// A value is legal exactly when it passes both passes.
pub proof fn lemma_value_passes(types: Seq<Type>, slots: Seq<TypeIndex>, v: Value, expects_node: bool)
    ensures
        value_ok(types, slots, v, expects_node) <==> (value_pass_ok(types, slots, v, expects_node, false) && value_pass_ok(
            types,
            slots,
            v,
            expects_node,
            true,
        )),
    decreases v,
{
    match v.value_type {
        ValueType::Reference(x) => lemma_value_passes(types, slots, *x, true),
        ValueType::Optional(x) => lemma_value_passes(types, slots, *x, false),
        ValueType::Array(x, _) => lemma_value_passes(types, slots, *x, false),
        ValueType::Slice(x) => lemma_value_passes(types, slots, *x, false),
        ValueType::Tuple(xs) => {
            assert forall|i: int| 0 <= i < xs@.len() implies (value_ok(types, slots, #[trigger] xs@[i], false) <==> (
            value_pass_ok(types, slots, xs@[i], false, false) && value_pass_ok(types, slots, xs@[i], false, true))) by {
                vstd::std_specs::vec::axiom_vec_index_decreases(xs, i);
                lemma_value_passes(types, slots, xs@[i], false);
            }
        },
        _ => {},
    }
}

/// Whether the first active type of `module` named `name` is a node, or
/// `None` where none is active.
pub fn find_type(types: &[Type], module: &Module, name: &String) -> (r: Option<bool>)
    ensures
        r == lookup(types@, module.types@, name@, module.types@.len() as int),
{
    let mut k: usize = 0;
    while k < module.types.len()
        invariant
            k <= module.types@.len(),
            lookup(types@, module.types@, name@, k as int) is None,
        decreases module.types@.len() - k,
    {
        let i = module.types[k].index;
        if i < types.len() && types[i].name().eq(name) {
            let node = match &types[i] {
                Type::Node(_) => true,
                _ => false,
            };
            assert(lookup(types@, module.types@, name@, k + 1) == Some(node));
            let ghost n = k + 1;
            assert forall|m: int| n <= m <= module.types@.len() implies lookup(types@, module.types@, name@, m) == Some(node) by {
                lemma_lookup_stays(types@, module.types@, name@, n, m);
            }
            return Some(node);
        }
        k += 1;
    }
    None
}

/// A type name used in a module resolves to the first active type of that
/// name wherever that type stands in the module, after the use as well as
/// before it: a reference to a type declared later in the same module is
/// never dangling.
pub proof fn lemma_forward_reference(types: Seq<Type>, slots: Seq<TypeIndex>, name: Seq<char>, k: int)
    requires
        0 <= k < slots.len(),
        slots[k].index < types.len(),
        types[slots[k].index as int].spec_name() == name,
        forall|j: int|
            0 <= j < k ==> !(slots[j].index < types.len() && #[trigger] types[slots[j].index as int].spec_name() == name),
    ensures
        lookup(types, slots, name, slots.len() as int) == Some(is_node(types[slots[k].index as int])),
{
    lemma_lookup_none_before(types, slots, name, k);
    lemma_lookup_stays(types, slots, name, k + 1, slots.len() as int);
}

proof fn lemma_lookup_none_before(types: Seq<Type>, slots: Seq<TypeIndex>, name: Seq<char>, n: int)
    requires
        0 <= n <= slots.len(),
        forall|j: int|
            0 <= j < n ==> !(slots[j].index < types.len() && #[trigger] types[slots[j].index as int].spec_name() == name),
    ensures
        lookup(types, slots, name, n) is None,
    decreases n,
{
    if n > 0 {
        lemma_lookup_none_before(types, slots, name, n - 1);
    }
}

proof fn lemma_lookup_stays(types: Seq<Type>, slots: Seq<TypeIndex>, name: Seq<char>, n: int, m: int)
    requires
        n <= m,
        lookup(types, slots, name, n) is Some,
    ensures
        lookup(types, slots, name, m) == lookup(types, slots, name, n),
    decreases m - n,
{
    if n < m {
        lemma_lookup_stays(types, slots, name, n, m - 1);
    }
}

/// Checks one field value against the types active in `module`, the
/// module of version `version`, in the given pass.
pub fn check_value(types: &[Type], module: &Module, version: usize, value: &Value, expects_node: bool, names_pass: bool) -> (r: Result<(), CompileError>)
    ensures
        r is Ok <==> value_pass_ok(types@, module.types@, *value, expects_node, names_pass),
        r matches Err(e) ==> e == value_error(types@, module.types@, *value, expects_node, names_pass, version),
        r matches Err(e) ==> e.kind == if names_pass {
            ErrorKind::DanglingReference { version }
        } else {
            ErrorKind::ReferenceKindMismatch
        },
    decreases value,
{
    let mismatch = Err(CompileError::at(ErrorKind::ReferenceKindMismatch, value.span));
    let misplaced = expects_node && !names_pass;
    match &value.value_type {
        ValueType::Composite(name) => match find_type(types, module, name) {
            None => if names_pass {
                Err(CompileError::at(ErrorKind::DanglingReference { version }, value.span))
            } else {
                Ok(())
            },
            Some(node) => if names_pass || node == expects_node {
                Ok(())
            } else {
                mismatch
            },
        },
        ValueType::Primitive(p) => {
            let any = match p {
                Primitive::Any => true,
                _ => false,
            };
            if names_pass || any == expects_node {
                Ok(())
            } else {
                mismatch
            }
        },
        ValueType::Reference(x) => if misplaced {
            mismatch
        } else {
            check_value(types, module, version, x, true, names_pass)
        },
        ValueType::Optional(x) => if misplaced {
            mismatch
        } else {
            check_value(types, module, version, x, false, names_pass)
        },
        ValueType::Array(x, _) => if misplaced {
            mismatch
        } else {
            check_value(types, module, version, x, false, names_pass)
        },
        ValueType::Slice(x) => if misplaced {
            mismatch
        } else {
            check_value(types, module, version, x, false, names_pass)
        },
        ValueType::Tuple(xs) => if misplaced {
            mismatch
        } else {
            let mut i: usize = 0;
            while i < xs.len()
                invariant
                    i <= xs@.len(),
                    names_pass || !expects_node,
                    value.value_type == ValueType::Tuple(*xs),
                    forall|j: int| 0 <= j < i ==> value_pass_ok(types@, module.types@, #[trigger] xs@[j], false, names_pass),
                decreases xs@.len() - i,
            {
                proof {
                    vstd::std_specs::vec::axiom_vec_index_decreases(*xs, i as int);
                    assert(value.value_type->Tuple_0 == *xs);
                    assert(decreases_to!(value => value.value_type));
                    assert(decreases_to!(value.value_type => value.value_type->Tuple_0));
                }
                let res = check_value(types, module, version, &xs[i], false, names_pass);
                if res.is_err() {
                    assert(!value_pass_ok(types@, module.types@, xs@[i as int], false, names_pass));
                    assert(!value_pass_ok(types@, module.types@, *value, expects_node, names_pass));
                    proof {
                        let g = first_bad_value(types@, module.types@, xs@, names_pass);
                        assert(0 <= g < xs@.len() && !value_pass_ok(types@, module.types@, xs@[g], false, names_pass) && forall|j: int|
                            0 <= j < g ==> value_pass_ok(types@, module.types@, #[trigger] xs@[j], false, names_pass));
                        if g < i {
                            assert(value_pass_ok(types@, module.types@, xs@[g], false, names_pass));
                        } else if g > i {
                            assert(value_pass_ok(types@, module.types@, xs@[i as int], false, names_pass));
                        }
                    }
                    return res;
                }
                i += 1;
            }
            Ok(())
        },
    }
}

/// The discriminant counter after one more active variant: an integer
/// variant sets the last discriminant and clears the pending increment, a
/// bare variant adds one to the increment once an integer has been seen,
/// and tuple or struct variants leave it as it is.
pub open spec fn discriminant_step(st: Option<(int, int)>, v: EnumFieldValue) -> Option<(int, int)> {
    match v {
        EnumFieldValue::Int { num, .. } => Some((num as int, 0)),
        EnumFieldValue::Unit => match st {
            Some((last, inc)) => Some((last, inc + 1)),
            None => None,
        },
        _ => st,
    }
}

/// The variant that a plain field slot names, if it names one.
pub open spec fn slot_variant(variants: Seq<crate::decl::EnumField>, slot: FieldIndex) -> Option<EnumFieldValue> {
    match slot {
        FieldIndex::Index(i) => if i < variants.len() {
            Some(variants[i as int].value)
        } else {
            None
        },
        _ => None,
    }
}

/// The discriminant counter after the first `n` active variants.
pub open spec fn discriminant_state(variants: Seq<crate::decl::EnumField>, slots: Seq<FieldIndex>, n: int) -> Option<(int, int)>
    decreases n,
{
    if n <= 0 {
        None
    } else {
        match slot_variant(variants, slots[n - 1]) {
            Some(v) => discriminant_step(discriminant_state(variants, slots, n - 1), v),
            None => discriminant_state(variants, slots, n - 1),
        }
    }
}

/// Whether active variant `k` of an enum passes the given pass: in the
/// first, an integer discriminant exceeds the last one plus the bare
/// variants since; in both, the values of a tuple or of the active fields of
/// a struct variant pass.
pub open spec fn enum_slot_ok(
    types: Seq<Type>,
    mslots: Seq<TypeIndex>,
    variants: Seq<crate::decl::EnumField>,
    fslots: Seq<FieldIndex>,
    k: int,
    names_pass: bool,
) -> bool {
    match fslots[k] {
        FieldIndex::Index(i) => i < variants.len() ==> plain_variant_ok(
            types,
            mslots,
            variants[i as int].value,
            discriminant_state(variants, fslots, k),
            names_pass,
        ),
        FieldIndex::EnumStruct(i, subs) => i < variants.len() ==> struct_variant_ok(
            types,
            mslots,
            variants[i as int].value,
            subs@,
            names_pass,
        ),
    }
}

/// Whether an active variant held in a plain slot passes, given the
/// discriminant counter before it.
pub open spec fn plain_variant_ok(
    types: Seq<Type>,
    mslots: Seq<TypeIndex>,
    v: EnumFieldValue,
    st: Option<(int, int)>,
    names_pass: bool,
) -> bool {
    match v {
        EnumFieldValue::Int { num, .. } => names_pass || match st {
            Some((last, inc)) => num > last + inc,
            None => true,
        },
        EnumFieldValue::Tuple(xs) => values_ok(types, mslots, xs@, names_pass),
        _ => true,
    }
}

/// Whether the active fields `subs` of a struct-shaped variant pass.
pub open spec fn struct_variant_ok(types: Seq<Type>, mslots: Seq<TypeIndex>, v: EnumFieldValue, subs: Seq<usize>, names_pass: bool) -> bool {
    match v {
        EnumFieldValue::Struct(sf) => forall|j: int|
            0 <= j < subs.len() && subs[j] < sf@.len() ==> value_pass_ok(
                types,
                mslots,
                #[trigger] sf@[subs[j] as int].value,
                false,
                names_pass,
            ),
        _ => true,
    }
}

/// Whether every value of a tuple passes outside a reference.
pub open spec fn values_ok(types: Seq<Type>, mslots: Seq<TypeIndex>, xs: Seq<Value>, names_pass: bool) -> bool {
    forall|j: int| 0 <= j < xs.len() ==> value_pass_ok(types, mslots, #[trigger] xs[j], false, names_pass)
}

/// Whether active field `k` of a record has a value that passes.
pub open spec fn struct_slot_ok(
    types: Seq<Type>,
    mslots: Seq<TypeIndex>,
    fields: Seq<StructField>,
    fslots: Seq<FieldIndex>,
    k: int,
    names_pass: bool,
) -> bool {
    match fslots[k] {
        FieldIndex::Index(i) => i < fields.len() ==> value_pass_ok(types, mslots, fields[i as int].value, false, names_pass),
        _ => true,
    }
}

/// Whether active type `k` of a module passes the given pass.
pub open spec fn type_slot_ok(types: Seq<Type>, mslots: Seq<TypeIndex>, k: int, names_pass: bool) -> bool {
    let slot = mslots[k];
    slot.index < types.len() ==> match types[slot.index as int] {
        Type::Node(s) => forall|j: int|
            0 <= j < slot.fields@.len() ==> #[trigger] struct_slot_ok(types, mslots, s.fields@, slot.fields@, j, names_pass),
        Type::Struct(s) => forall|j: int|
            0 <= j < slot.fields@.len() ==> #[trigger] struct_slot_ok(types, mslots, s.fields@, slot.fields@, j, names_pass),
        Type::Enum(e) => forall|j: int|
            0 <= j < slot.fields@.len() ==> #[trigger] enum_slot_ok(types, mslots, e.fields@, slot.fields@, j, names_pass),
    }
}

/// Whether every active type of a module passes the given pass.
pub open spec fn pass_ok(types: Seq<Type>, m: Module, names_pass: bool) -> bool {
    forall|k: int| 0 <= k < m.types@.len() ==> #[trigger] type_slot_ok(types, m.types@, k, names_pass)
}

/// Whether a module holds a type and passes both passes: every reference
/// is of the right kind and every discriminant increases, and every named
/// type is active in the module.
pub open spec fn module_ok(types: Seq<Type>, m: Module) -> bool {
    &&& m.types@.len() > 0
    &&& pass_ok(types, m, false)
    &&& pass_ok(types, m, true)
}

pub open spec fn modules_ok(types: Seq<Type>, modules: Seq<Module>) -> bool {
    forall|i: int| 0 <= i < modules.len() ==> #[trigger] module_ok(types, modules[i])
}

/// The first active field of a record that fails the given pass.
pub open spec fn first_bad_struct_slot(
    types: Seq<Type>,
    mslots: Seq<TypeIndex>,
    fields: Seq<StructField>,
    fslots: Seq<FieldIndex>,
    names_pass: bool,
) -> int {
    choose|j: int|
        0 <= j < fslots.len() && !struct_slot_ok(types, mslots, fields, fslots, j, names_pass) && forall|q: int|
            0 <= q < j ==> #[trigger] struct_slot_ok(types, mslots, fields, fslots, q, names_pass)
}

/// The error of the first active field of a record that fails the pass.
pub open spec fn struct_fields_error(
    types: Seq<Type>,
    mslots: Seq<TypeIndex>,
    fields: Seq<StructField>,
    fslots: Seq<FieldIndex>,
    names_pass: bool,
    version: usize,
) -> CompileError {
    let j = first_bad_struct_slot(types, mslots, fields, fslots, names_pass);
    value_error(types, mslots, fields[fslots[j]->Index_0 as int].value, false, names_pass, version)
}

/// The first active field, by its position in `subs`, of a struct-shaped
/// variant that fails the given pass.
pub open spec fn first_bad_sub(types: Seq<Type>, mslots: Seq<TypeIndex>, sf: Seq<StructField>, subs: Seq<usize>, names_pass: bool) -> int {
    choose|p: int|
        0 <= p < subs.len() && subs[p] < sf.len() && !value_pass_ok(types, mslots, sf[subs[p] as int].value, false, names_pass)
            && forall|q: int|
            0 <= q < p && subs[q] < sf.len() ==> value_pass_ok(types, mslots, #[trigger] sf[subs[q] as int].value, false, names_pass)
}

/// The error that active variant `k` of an enum reports where it fails the
/// pass: a discriminant out of order at its literal, or the error of the
/// first value it carries that fails.
pub open spec fn enum_slot_error(
    types: Seq<Type>,
    mslots: Seq<TypeIndex>,
    variants: Seq<crate::decl::EnumField>,
    fslots: Seq<FieldIndex>,
    k: int,
    names_pass: bool,
    version: usize,
) -> CompileError {
    match fslots[k] {
        FieldIndex::Index(i) => match variants[i as int].value {
            EnumFieldValue::Int { num_span, .. } => error_at(ErrorKind::EnumDiscriminantOrder, num_span),
            EnumFieldValue::Tuple(xs) => value_error(
                types,
                mslots,
                xs@[first_bad_value(types, mslots, xs@, names_pass)],
                false,
                names_pass,
                version,
            ),
            _ => error_at(ErrorKind::ReferenceKindMismatch, variants[i as int].name_span),
        },
        FieldIndex::EnumStruct(i, subs) => match variants[i as int].value {
            EnumFieldValue::Struct(sf) => value_error(
                types,
                mslots,
                sf@[subs@[first_bad_sub(types, mslots, sf@, subs@, names_pass)] as int].value,
                false,
                names_pass,
                version,
            ),
            _ => error_at(ErrorKind::ReferenceKindMismatch, variants[i as int].name_span),
        },
    }
}

pub open spec fn first_bad_enum_slot(
    types: Seq<Type>,
    mslots: Seq<TypeIndex>,
    variants: Seq<crate::decl::EnumField>,
    fslots: Seq<FieldIndex>,
    names_pass: bool,
) -> int {
    choose|j: int|
        0 <= j < fslots.len() && !enum_slot_ok(types, mslots, variants, fslots, j, names_pass) && forall|q: int|
            0 <= q < j ==> #[trigger] enum_slot_ok(types, mslots, variants, fslots, q, names_pass)
}

/// The error of the first active variant of an enum that fails the pass.
pub open spec fn enum_fields_error(
    types: Seq<Type>,
    mslots: Seq<TypeIndex>,
    variants: Seq<crate::decl::EnumField>,
    fslots: Seq<FieldIndex>,
    names_pass: bool,
    version: usize,
) -> CompileError {
    enum_slot_error(types, mslots, variants, fslots, first_bad_enum_slot(types, mslots, variants, fslots, names_pass), names_pass, version)
}

/// The error that active type `k` of a module reports where it fails the
/// pass.
pub open spec fn type_slot_error(types: Seq<Type>, mslots: Seq<TypeIndex>, k: int, names_pass: bool, version: usize) -> CompileError {
    let slot = mslots[k];
    match types[slot.index as int] {
        Type::Node(s) => struct_fields_error(types, mslots, s.fields@, slot.fields@, names_pass, version),
        Type::Struct(s) => struct_fields_error(types, mslots, s.fields@, slot.fields@, names_pass, version),
        Type::Enum(e) => enum_fields_error(types, mslots, e.fields@, slot.fields@, names_pass, version),
    }
}

pub open spec fn first_bad_type_slot(types: Seq<Type>, mslots: Seq<TypeIndex>, names_pass: bool) -> int {
    choose|k: int|
        0 <= k < mslots.len() && !type_slot_ok(types, mslots, k, names_pass) && forall|q: int|
            0 <= q < k ==> #[trigger] type_slot_ok(types, mslots, q, names_pass)
}

/// The error of the first active type of a module that fails the pass.
pub open spec fn pass_failure(types: Seq<Type>, m: Module, names_pass: bool, version: usize) -> CompileError {
    type_slot_error(types, m.types@, first_bad_type_slot(types, m.types@, names_pass), names_pass, version)
}

/// The error that module `i` (of version `i + 1`) reports where it is not
/// legal: it is empty, or else the first pass fails, or else the second.
pub open spec fn module_error(types: Seq<Type>, m: Module, i: int) -> CompileError {
    if m.types@.len() == 0 {
        CompileError { kind: ErrorKind::EmptyVersion { version: (i + 1) as usize }, location: None }
    } else if !pass_ok(types, m, false) {
        pass_failure(types, m, false, (i + 1) as usize)
    } else {
        pass_failure(types, m, true, (i + 1) as usize)
    }
}

pub open spec fn first_bad_module(types: Seq<Type>, modules: Seq<Module>) -> int {
    choose|i: int|
        0 <= i < modules.len() && !module_ok(types, modules[i]) && forall|j: int|
            0 <= j < i ==> #[trigger] module_ok(types, modules[j])
}

/// The error that a list of modules that is not legal reports: that of its
/// first module that is not legal.
pub open spec fn modules_error(types: Seq<Type>, modules: Seq<Module>) -> CompileError {
    let i = first_bad_module(types, modules);
    module_error(types, modules[i], i)
}

/// Whether an error kind is one that the given pass over the module of
/// version `version` reports.
pub open spec fn pass_error(kind: ErrorKind, version: usize, names_pass: bool) -> bool {
    if names_pass {
        kind == (ErrorKind::DanglingReference { version })
    } else {
        kind == ErrorKind::ReferenceKindMismatch || kind == ErrorKind::EnumDiscriminantOrder
    }
}

/// Checks the active fields of a record type of `module` in one pass.
pub fn check_struct_fields(
    types: &[Type],
    module: &Module,
    version: usize,
    slot: &TypeIndex,
    fields: &Vec<StructField>,
    names_pass: bool,
) -> (r: Result<(), CompileError>)
    ensures
        r is Ok <==> forall|j: int|
            0 <= j < slot.fields@.len() ==> #[trigger] struct_slot_ok(types@, module.types@, fields@, slot.fields@, j, names_pass),
        r matches Err(e) ==> pass_error(e.kind, version, names_pass) && e == struct_fields_error(
            types@,
            module.types@,
            fields@,
            slot.fields@,
            names_pass,
            version,
        ),
{
    let mut j: usize = 0;
    while j < slot.fields.len()
        invariant
            j <= slot.fields@.len(),
            forall|q: int| 0 <= q < j ==> #[trigger] struct_slot_ok(types@, module.types@, fields@, slot.fields@, q, names_pass),
        decreases slot.fields@.len() - j,
    {
        if let FieldIndex::Index(i) = &slot.fields[j] {
            if *i < fields.len() {
                let res = check_value(types, module, version, &fields[*i].value, false, names_pass);
                if res.is_err() {
                    assert(!struct_slot_ok(types@, module.types@, fields@, slot.fields@, j as int, names_pass));
                    proof {
                        let g = first_bad_struct_slot(types@, module.types@, fields@, slot.fields@, names_pass);
                        assert(0 <= g < slot.fields@.len() && !struct_slot_ok(types@, module.types@, fields@, slot.fields@, g, names_pass)
                            && forall|q: int|
                            0 <= q < g ==> #[trigger] struct_slot_ok(types@, module.types@, fields@, slot.fields@, q, names_pass));
                        if g < j {
                            assert(struct_slot_ok(types@, module.types@, fields@, slot.fields@, g, names_pass));
                        } else if g > j {
                            assert(struct_slot_ok(types@, module.types@, fields@, slot.fields@, j as int, names_pass));
                        }
                    }
                    return res;
                }
            }
        }
        j += 1;
    }
    Ok(())
}

proof fn lemma_first_bad_enum_slot(
    types: Seq<Type>,
    mslots: Seq<TypeIndex>,
    variants: Seq<crate::decl::EnumField>,
    fslots: Seq<FieldIndex>,
    names_pass: bool,
    j: int,
)
    requires
        0 <= j < fslots.len(),
        !enum_slot_ok(types, mslots, variants, fslots, j, names_pass),
        forall|q: int| 0 <= q < j ==> #[trigger] enum_slot_ok(types, mslots, variants, fslots, q, names_pass),
    ensures
        first_bad_enum_slot(types, mslots, variants, fslots, names_pass) == j,
{
    let g = first_bad_enum_slot(types, mslots, variants, fslots, names_pass);
    assert(0 <= g < fslots.len() && !enum_slot_ok(types, mslots, variants, fslots, g, names_pass) && forall|q: int|
        0 <= q < g ==> #[trigger] enum_slot_ok(types, mslots, variants, fslots, q, names_pass));
    if g < j {
        assert(enum_slot_ok(types, mslots, variants, fslots, g, names_pass));
    } else if g > j {
        assert(enum_slot_ok(types, mslots, variants, fslots, j, names_pass));
    }
}

proof fn lemma_first_bad_value(types: Seq<Type>, slots: Seq<TypeIndex>, xs: Seq<Value>, names_pass: bool, i: int)
    requires
        0 <= i < xs.len(),
        !value_pass_ok(types, slots, xs[i], false, names_pass),
        forall|j: int| 0 <= j < i ==> value_pass_ok(types, slots, #[trigger] xs[j], false, names_pass),
    ensures
        first_bad_value(types, slots, xs, names_pass) == i,
{
    let g = first_bad_value(types, slots, xs, names_pass);
    assert(0 <= g < xs.len() && !value_pass_ok(types, slots, xs[g], false, names_pass) && forall|j: int|
        0 <= j < g ==> value_pass_ok(types, slots, #[trigger] xs[j], false, names_pass));
    if g < i {
        assert(value_pass_ok(types, slots, xs[g], false, names_pass));
    } else if g > i {
        assert(value_pass_ok(types, slots, xs[i], false, names_pass));
    }
}

proof fn lemma_first_bad_sub(types: Seq<Type>, mslots: Seq<TypeIndex>, sf: Seq<StructField>, subs: Seq<usize>, names_pass: bool, p: int)
    requires
        0 <= p < subs.len(),
        subs[p] < sf.len(),
        !value_pass_ok(types, mslots, sf[subs[p] as int].value, false, names_pass),
        forall|q: int|
            0 <= q < p && subs[q] < sf.len() ==> value_pass_ok(types, mslots, #[trigger] sf[subs[q] as int].value, false, names_pass),
    ensures
        first_bad_sub(types, mslots, sf, subs, names_pass) == p,
{
    let g = first_bad_sub(types, mslots, sf, subs, names_pass);
    assert(0 <= g < subs.len() && subs[g] < sf.len() && !value_pass_ok(types, mslots, sf[subs[g] as int].value, false, names_pass)
        && forall|q: int|
        0 <= q < g && subs[q] < sf.len() ==> value_pass_ok(types, mslots, #[trigger] sf[subs[q] as int].value, false, names_pass));
    if g < p {
        assert(value_pass_ok(types, mslots, sf[subs[g] as int].value, false, names_pass));
    } else if g > p {
        assert(value_pass_ok(types, mslots, sf[subs[p] as int].value, false, names_pass));
    }
}

/// Checks the values of a tuple variant in one pass.
fn check_values(types: &[Type], module: &Module, version: usize, xs: &Vec<Value>, names_pass: bool) -> (r: Result<(), CompileError>)
    ensures
        r is Ok <==> values_ok(types@, module.types@, xs@, names_pass),
        r matches Err(e) ==> pass_error(e.kind, version, names_pass) && e == value_error(
            types@,
            module.types@,
            xs@[first_bad_value(types@, module.types@, xs@, names_pass)],
            false,
            names_pass,
            version,
        ),
{
    let mut q: usize = 0;
    while q < xs.len()
        invariant
            q <= xs@.len(),
            forall|p: int| 0 <= p < q ==> value_pass_ok(types@, module.types@, #[trigger] xs@[p], false, names_pass),
        decreases xs@.len() - q,
    {
        let res = check_value(types, module, version, &xs[q], false, names_pass);
        if res.is_err() {
            proof {
                lemma_first_bad_value(types@, module.types@, xs@, names_pass, q as int);
            }
            return res;
        }
        q += 1;
    }
    Ok(())
}

/// Checks the active fields `subs` of a struct-shaped variant in one pass.
fn check_sub_values(
    types: &[Type],
    module: &Module,
    version: usize,
    sf: &Vec<StructField>,
    subs: &Vec<usize>,
    names_pass: bool,
) -> (r: Result<(), CompileError>)
    ensures
        r is Ok <==> forall|p: int|
            0 <= p < subs@.len() && subs@[p] < sf@.len() ==> value_pass_ok(
                types@,
                module.types@,
                #[trigger] sf@[subs@[p] as int].value,
                false,
                names_pass,
            ),
        r matches Err(e) ==> pass_error(e.kind, version, names_pass) && e == value_error(
            types@,
            module.types@,
            sf@[subs@[first_bad_sub(types@, module.types@, sf@, subs@, names_pass)] as int].value,
            false,
            names_pass,
            version,
        ),
{
    let mut q: usize = 0;
    while q < subs.len()
        invariant
            q <= subs@.len(),
            forall|p: int|
                0 <= p < q && subs@[p] < sf@.len() ==> value_pass_ok(
                    types@,
                    module.types@,
                    #[trigger] sf@[subs@[p] as int].value,
                    false,
                    names_pass,
                ),
        decreases subs@.len() - q,
    {
        if subs[q] < sf.len() {
            let res = check_value(types, module, version, &sf[subs[q]].value, false, names_pass);
            if res.is_err() {
                proof {
                    lemma_first_bad_sub(types@, module.types@, sf@, subs@, names_pass, q as int);
                }
                return res;
            }
        }
        q += 1;
    }
    Ok(())
}

/// Checks the active variants of an enum type of `module` in one pass: in
/// the first, their discriminants in order; in both, the values they carry.
pub fn check_enum_fields(
    types: &[Type],
    module: &Module,
    version: usize,
    slot: &TypeIndex,
    variants: &Vec<crate::decl::EnumField>,
    names_pass: bool,
) -> (r: Result<(), CompileError>)
    ensures
        r is Ok <==> forall|j: int|
            0 <= j < slot.fields@.len() ==> #[trigger] enum_slot_ok(types@, module.types@, variants@, slot.fields@, j, names_pass),
        r matches Err(e) ==> pass_error(e.kind, version, names_pass) && e == enum_fields_error(
            types@,
            module.types@,
            variants@,
            slot.fields@,
            names_pass,
            version,
        ),
{
    let mut seen: bool = false;
    let mut last: u32 = 0;
    let mut inc: usize = 0;
    let mut j: usize = 0;
    while j < slot.fields.len()
        invariant
            j <= slot.fields@.len(),
            inc <= j,
            discriminant_state(variants@, slot.fields@, j as int) == if seen {
                Some((last as int, inc as int))
            } else {
                None::<(int, int)>
            },
            forall|q: int| 0 <= q < j ==> #[trigger] enum_slot_ok(types@, module.types@, variants@, slot.fields@, q, names_pass),
        decreases slot.fields@.len() - j,
    {
        match &slot.fields[j] {
            FieldIndex::Index(i) => {
                if *i < variants.len() {
                    match &variants[*i].value {
                        EnumFieldValue::Int { num, num_span } => {
                            if !names_pass && seen && (*num <= last || ((*num - last) as usize) <= inc) {
                                assert(!enum_slot_ok(types@, module.types@, variants@, slot.fields@, j as int, names_pass));
                                proof {
                                    lemma_first_bad_enum_slot(types@, module.types@, variants@, slot.fields@, names_pass, j as int);
                                }
                                return Err(CompileError::at(ErrorKind::EnumDiscriminantOrder, *num_span));
                            }
                            seen = true;
                            last = *num;
                            inc = 0;
                        },
                        EnumFieldValue::Tuple(xs) => {
                            let res = check_values(types, module, version, xs, names_pass);
                            if res.is_err() {
                                assert(!enum_slot_ok(types@, module.types@, variants@, slot.fields@, j as int, names_pass));
                                proof {
                                    lemma_first_bad_enum_slot(types@, module.types@, variants@, slot.fields@, names_pass, j as int);
                                }
                                return res;
                            }
                        },
                        EnumFieldValue::Unit => {
                            if seen {
                                inc += 1;
                            }
                        },
                        EnumFieldValue::Struct(_) => {},
                    }
                }
            },
            FieldIndex::EnumStruct(i, subs) => {
                if *i < variants.len() {
                    if let EnumFieldValue::Struct(sf) = &variants[*i].value {
                        let res = check_sub_values(types, module, version, sf, subs, names_pass);
                        if res.is_err() {
                            assert(!enum_slot_ok(types@, module.types@, variants@, slot.fields@, j as int, names_pass));
                            proof {
                                lemma_first_bad_enum_slot(types@, module.types@, variants@, slot.fields@, names_pass, j as int);
                            }
                            return res;
                        }
                    }
                }
            },
        }
        assert(enum_slot_ok(types@, module.types@, variants@, slot.fields@, j as int, names_pass));
        j += 1;
    }
    Ok(())
}

proof fn lemma_first_bad_type_slot(types: Seq<Type>, mslots: Seq<TypeIndex>, names_pass: bool, k: int)
    requires
        0 <= k < mslots.len(),
        !type_slot_ok(types, mslots, k, names_pass),
        forall|q: int| 0 <= q < k ==> #[trigger] type_slot_ok(types, mslots, q, names_pass),
    ensures
        first_bad_type_slot(types, mslots, names_pass) == k,
{
    let g = first_bad_type_slot(types, mslots, names_pass);
    assert(0 <= g < mslots.len() && !type_slot_ok(types, mslots, g, names_pass) && forall|q: int|
        0 <= q < g ==> #[trigger] type_slot_ok(types, mslots, q, names_pass));
    if g < k {
        assert(type_slot_ok(types, mslots, g, names_pass));
    } else if g > k {
        assert(type_slot_ok(types, mslots, k, names_pass));
    }
}

/// Runs one pass over the active types of `module`, the module of version
/// `version`, in order.
#[verifier::rlimit(40)]
pub fn check_pass(types: &[Type], module: &Module, version: usize, names_pass: bool) -> (r: Result<(), CompileError>)
    ensures
        r is Ok <==> pass_ok(types@, *module, names_pass),
        r matches Err(e) ==> pass_error(e.kind, version, names_pass) && e == pass_failure(types@, *module, names_pass, version),
{
    let mut ti: usize = 0;
    while ti < module.types.len()
        invariant
            ti <= module.types@.len(),
            forall|k: int| 0 <= k < ti ==> #[trigger] type_slot_ok(types@, module.types@, k, names_pass),
        decreases module.types@.len() - ti,
    {
        let slot = &module.types[ti];
        if slot.index < types.len() {
            let res = match &types[slot.index] {
                Type::Node(s) => check_struct_fields(types, module, version, slot, &s.fields, names_pass),
                Type::Struct(s) => check_struct_fields(types, module, version, slot, &s.fields, names_pass),
                Type::Enum(e) => check_enum_fields(types, module, version, slot, &e.fields, names_pass),
            };
            if res.is_err() {
                assert(!type_slot_ok(types@, module.types@, ti as int, names_pass));
                proof {
                    lemma_first_bad_type_slot(types@, module.types@, names_pass, ti as int);
                }
                return res;
            }
        }
        ti += 1;
    }
    Ok(())
}

proof fn lemma_first_bad_module(types: Seq<Type>, modules: Seq<Module>, i: int)
    requires
        0 <= i < modules.len(),
        !module_ok(types, modules[i]),
        forall|j: int| 0 <= j < i ==> #[trigger] module_ok(types, modules[j]),
    ensures
        first_bad_module(types, modules) == i,
{
    let g = first_bad_module(types, modules);
    assert(0 <= g < modules.len() && !module_ok(types, modules[g]) && forall|j: int|
        0 <= j < g ==> #[trigger] module_ok(types, modules[j]));
    if g < i {
        assert(module_ok(types, modules[g]));
    } else if g > i {
        assert(module_ok(types, modules[i]));
    }
}

/// Checks every module in order: each must hold a type; then a first pass
/// over its types checks reference kinds and discriminants, and a second
/// reports the first type name that no type of the module defines.
pub fn check_modules(types: &[Type], modules: &Vec<Module>) -> (r: Result<(), CompileError>)
    ensures
        r is Ok <==> modules_ok(types@, modules@),
        r matches Err(e) ==> e == modules_error(types@, modules@),
        r matches Err(e) ==> is_module_error(e.kind) && exists|i: int|
            {
                &&& 0 <= i < modules@.len()
                &&& !module_ok(types@, #[trigger] modules@[i])
                &&& forall|j: int| 0 <= j < i ==> module_ok(types@, #[trigger] modules@[j])
                &&& e.kind is EmptyVersion ==> e.kind == (ErrorKind::EmptyVersion { version: (i + 1) as usize }) && modules@[i].types@.len()
                    == 0
                &&& e.kind is DanglingReference ==> e.kind == (ErrorKind::DanglingReference { version: (i + 1) as usize })
                    && modules@[i].types@.len() > 0 && pass_ok(types@, modules@[i], false)
            },
{
    let mut mi: usize = 0;
    while mi < modules.len()
        invariant
            mi <= modules@.len(),
            forall|i: int| 0 <= i < mi ==> #[trigger] module_ok(types@, modules@[i]),
        decreases modules@.len() - mi,
    {
        let module = &modules[mi];
        if module.types.len() == 0 {
            assert(!module_ok(types@, modules@[mi as int]));
            let e = CompileError { kind: ErrorKind::EmptyVersion { version: mi + 1 }, location: None };
            assert(e.kind == (ErrorKind::EmptyVersion { version: (mi as int + 1) as usize }));
            proof {
                lemma_first_bad_module(types@, modules@, mi as int);
            }
            return Err(e);
        }
        let version = mi + 1;
        let res = check_pass(types, module, version, false);
        if res.is_err() {
            assert(!module_ok(types@, modules@[mi as int]));
            proof {
                lemma_first_bad_module(types@, modules@, mi as int);
            }
            return res;
        }
        let res = check_pass(types, module, version, true);
        if res.is_err() {
            assert(!module_ok(types@, modules@[mi as int]));
            assert(pass_ok(types@, modules@[mi as int], false));
            proof {
                lemma_first_bad_module(types@, modules@, mi as int);
            }
            return res;
        }
        assert(module_ok(types@, modules@[mi as int]));
        mi += 1;
    }
    Ok(())
}

} // verus!
