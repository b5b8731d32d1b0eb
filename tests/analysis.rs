use cyder::analysis::Analyzer;
use cyder::decl::{
    Enum, EnumField, EnumFieldValue, Primitive, Span, Struct, StructField, Type, Value, ValueType,
    VersionHeader, VersionItem,
};
use cyder::error::{CompileError, ErrorKind};
use cyder::timeline::{FieldIndex, Module, TypeIndex};

fn sp(line: u32) -> Span {
    Span { line, column: 1 }
}

fn item(num: u32, line: u32) -> VersionItem {
    VersionItem { num, span: sp(line) }
}

fn ver(added: Option<u32>, removed: Option<u32>, line: u32) -> Option<VersionHeader> {
    Some(VersionHeader {
        added: added.map(|n| item(n, line)),
        removed: removed.map(|n| item(n, line + 1000)),
    })
}

fn prim(p: Primitive, line: u32) -> Value {
    Value { value_type: ValueType::Primitive(p), span: sp(line) }
}

fn named(name: &str, line: u32) -> Value {
    Value { value_type: ValueType::Composite(name.to_string()), span: sp(line) }
}

fn reference(inner: Value, line: u32) -> Value {
    Value { value_type: ValueType::Reference(Box::new(inner)), span: sp(line) }
}

fn field(name: &str, version: Option<VersionHeader>, value: Value, line: u32) -> StructField {
    StructField { name: name.to_string(), name_span: sp(line), version, value }
}

fn record(name: &str, version: Option<VersionHeader>, fields: Vec<StructField>, line: u32) -> Struct {
    Struct { name: name.to_string(), name_span: sp(line), version, fields }
}

fn variant(name: &str, version: Option<VersionHeader>, value: EnumFieldValue, line: u32) -> EnumField {
    EnumField { name: name.to_string(), name_span: sp(line), version, value }
}

fn int_variant(name: &str, version: Option<VersionHeader>, num: u32, line: u32) -> EnumField {
    variant(name, version, EnumFieldValue::Int { num, num_span: sp(line + 500) }, line)
}

fn enumeration(name: &str, version: Option<VersionHeader>, fields: Vec<EnumField>, line: u32) -> Enum {
    Enum { name: name.to_string(), name_span: sp(line), version, fields }
}

fn slot(index: usize, fields: Vec<FieldIndex>) -> TypeIndex {
    TypeIndex { index, fields }
}

fn module(types: Vec<TypeIndex>) -> Module {
    Module { types }
}

fn err_at(kind: ErrorKind, line: u32) -> CompileError {
    CompileError { kind, location: Some(sp(line)) }
}

#[test]
fn single_struct_without_annotations_gives_one_module() {
    let types = vec![Type::Struct(record(
        "S",
        None,
        vec![
            field("a", None, prim(Primitive::UInt32, 2), 2),
            field("b", None, prim(Primitive::Boolean, 3), 3),
        ],
        1,
    ))];
    let modules = Analyzer::run(&types).unwrap();
    assert_eq!(
        modules,
        vec![module(vec![slot(0, vec![FieldIndex::Index(0), FieldIndex::Index(1)])])]
    );
}

#[test]
fn field_redeclared_at_its_removal_version() {
    let types = vec![Type::Struct(record(
        "S",
        None,
        vec![
            field("f", ver(None, Some(2), 2), prim(Primitive::UInt32, 2), 2),
            field("f", ver(Some(2), None, 3), prim(Primitive::String, 3), 3),
        ],
        1,
    ))];
    let modules = Analyzer::run(&types).unwrap();
    assert_eq!(
        modules,
        vec![
            module(vec![slot(0, vec![FieldIndex::Index(0)])]),
            module(vec![slot(0, vec![FieldIndex::Index(1)])]),
        ]
    );
}

#[test]
fn field_redeclared_inside_its_range_overlaps() {
    let types = vec![Type::Struct(record(
        "S",
        None,
        vec![
            field("f", ver(None, Some(3), 2), prim(Primitive::UInt32, 2), 2),
            field("f", ver(Some(2), None, 3), prim(Primitive::String, 3), 3),
        ],
        1,
    ))];
    assert_eq!(Analyzer::run(&types), Err(err_at(ErrorKind::NameOverlap, 3)));
}

#[test]
fn discriminants_only_ordered_within_a_module() {
    let types = vec![Type::Enum(enumeration(
        "E",
        None,
        vec![
            int_variant("Val", ver(None, Some(2), 2), 10, 2),
            int_variant("Val", ver(Some(2), None, 3), 5, 3),
        ],
        1,
    ))];
    let modules = Analyzer::run(&types).unwrap();
    assert_eq!(
        modules,
        vec![
            module(vec![slot(0, vec![FieldIndex::Index(0)])]),
            module(vec![slot(0, vec![FieldIndex::Index(1)])]),
        ]
    );
}

#[test]
fn discriminant_pair_touching_ranges_still_name_checked() {
    let types = vec![Type::Enum(enumeration(
        "E",
        None,
        vec![
            int_variant("Val", ver(None, Some(3), 2), 10, 2),
            int_variant("Val", ver(Some(2), None, 3), 5, 3),
        ],
        1,
    ))];
    assert_eq!(Analyzer::run(&types), Err(err_at(ErrorKind::NameOverlap, 3)));
}

#[test]
fn plain_struct_through_reference_is_a_mismatch() {
    let with_ref = vec![
        Type::Struct(record("B", None, vec![], 1)),
        Type::Struct(record("A", None, vec![field("x", None, reference(named("B", 4), 3), 3)], 2)),
    ];
    assert_eq!(Analyzer::run(&with_ref), Err(err_at(ErrorKind::ReferenceKindMismatch, 4)));

    let without_ref = vec![
        Type::Struct(record("B", None, vec![], 1)),
        Type::Struct(record("A", None, vec![field("x", None, named("B", 4), 3)], 2)),
    ];
    assert_eq!(
        Analyzer::run(&without_ref).unwrap(),
        vec![module(vec![slot(0, vec![]), slot(1, vec![FieldIndex::Index(0)])])]
    );
}

#[test]
fn plain_struct_through_forward_reference_is_a_mismatch() {
    let types = vec![
        Type::Struct(record("A", None, vec![field("x", None, reference(named("B", 4), 3), 3)], 2)),
        Type::Struct(record("B", None, vec![], 5)),
    ];
    assert_eq!(Analyzer::run(&types), Err(err_at(ErrorKind::ReferenceKindMismatch, 4)));
}

#[test]
fn module_left_without_types_is_empty() {
    let types = vec![
        Type::Struct(record("A", ver(Some(1), Some(2), 1), vec![], 1)),
        Type::Struct(record("B", ver(Some(3), None, 2), vec![], 2)),
    ];
    assert_eq!(
        Analyzer::run(&types),
        Err(CompileError { kind: ErrorKind::EmptyVersion { version: 2 }, location: None })
    );
}

#[test]
fn open_type_keeps_later_modules_filled() {
    let types = vec![
        Type::Struct(record("A", ver(Some(1), None, 1), vec![], 1)),
        Type::Struct(record("B", ver(Some(1), Some(2), 2), vec![], 2)),
        Type::Struct(record("C", ver(Some(3), None, 3), vec![], 3)),
    ];
    assert_eq!(
        Analyzer::run(&types).unwrap(),
        vec![
            module(vec![slot(0, vec![]), slot(1, vec![])]),
            module(vec![slot(0, vec![])]),
            module(vec![slot(0, vec![]), slot(2, vec![])]),
        ]
    );
}

#[test]
fn forward_reference_in_one_module_resolves() {
    let types = vec![
        Type::Struct(record("A", None, vec![field("x", None, named("B", 3), 3)], 2)),
        Type::Node(record("N", None, vec![field("b", None, named("B", 6), 6)], 5)),
        Type::Struct(record("B", None, vec![field("n", None, reference(named("N", 9), 8), 8)], 7)),
    ];
    let modules = Analyzer::run(&types).unwrap();
    assert_eq!(modules.len(), 1);
    assert_eq!(modules[0].types.len(), 3);
}

#[test]
fn reference_to_type_of_another_version_dangles() {
    let types = vec![
        Type::Struct(record("B", ver(Some(2), None, 1), vec![], 1)),
        Type::Struct(record("A", None, vec![field("x", None, named("B", 4), 3)], 2)),
    ];
    assert_eq!(
        Analyzer::run(&types),
        Err(err_at(ErrorKind::DanglingReference { version: 1 }, 4))
    );
}

#[test]
fn node_embedded_without_reference_is_a_mismatch() {
    let types = vec![
        Type::Node(record("N", None, vec![], 1)),
        Type::Struct(record("A", None, vec![field("x", None, named("N", 4), 3)], 2)),
    ];
    assert_eq!(Analyzer::run(&types), Err(err_at(ErrorKind::ReferenceKindMismatch, 4)));
}

#[test]
fn any_outside_reference_is_a_mismatch() {
    let inside = vec![Type::Struct(record(
        "A",
        None,
        vec![field("x", None, reference(prim(Primitive::Any, 4), 3), 3)],
        1,
    ))];
    assert!(Analyzer::run(&inside).is_ok());
    let outside = vec![Type::Struct(record(
        "A",
        None,
        vec![field("x", None, prim(Primitive::Any, 4), 3)],
        1,
    ))];
    assert_eq!(Analyzer::run(&outside), Err(err_at(ErrorKind::ReferenceKindMismatch, 4)));
}

#[test]
fn reference_must_enclose_a_name_or_any() {
    let types = vec![Type::Struct(record(
        "A",
        None,
        vec![field("x", None, reference(prim(Primitive::Int8, 4), 3), 3)],
        1,
    ))];
    assert_eq!(Analyzer::run(&types), Err(err_at(ErrorKind::ReferenceKindMismatch, 4)));
}

#[test]
fn removal_not_after_addition_is_malformed() {
    let types = vec![Type::Struct(record("A", ver(Some(3), Some(3), 1), vec![], 1))];
    assert_eq!(Analyzer::run(&types), Err(err_at(ErrorKind::MalformedVersion, 1001)));
}

#[test]
fn field_before_its_type_escapes_containment() {
    let types = vec![Type::Struct(record(
        "A",
        ver(Some(2), None, 1),
        vec![field("x", ver(Some(1), None, 3), prim(Primitive::Int8, 3), 3)],
        1,
    ))];
    assert_eq!(Analyzer::run(&types), Err(err_at(ErrorKind::ContainmentViolation, 3)));
}

#[test]
fn version_above_the_limit_is_rejected() {
    let types = vec![Type::Struct(record("A", ver(Some(5000), None, 1), vec![], 7))];
    assert_eq!(Analyzer::run(&types), Err(err_at(ErrorKind::VersionOutOfBounds, 7)));
}

#[test]
fn unannotated_duplicate_types_overlap() {
    let types = vec![
        Type::Struct(record("A", None, vec![], 1)),
        Type::Enum(enumeration("A", ver(Some(2), None, 2), vec![], 2)),
    ];
    assert_eq!(Analyzer::run(&types), Err(err_at(ErrorKind::NameOverlap, 2)));
}

#[test]
fn enum_mixing_integer_and_tuple_variants_conflicts() {
    let types = vec![Type::Enum(enumeration(
        "E",
        None,
        vec![
            int_variant("A", ver(None, Some(2), 2), 1, 2),
            variant("B", ver(Some(2), None, 3), EnumFieldValue::Tuple(vec![prim(Primitive::Int8, 3)]), 3),
        ],
        1,
    ))];
    assert_eq!(Analyzer::run(&types), Err(err_at(ErrorKind::EnumShapeConflict, 3)));
}

#[test]
fn discriminant_must_pass_bare_variants() {
    let types = vec![Type::Enum(enumeration(
        "E",
        None,
        vec![
            int_variant("A", None, 1, 2),
            variant("B", None, EnumFieldValue::Unit, 3),
            int_variant("C", None, 2, 4),
        ],
        1,
    ))];
    assert_eq!(Analyzer::run(&types), Err(err_at(ErrorKind::EnumDiscriminantOrder, 504)));

    let fine = vec![Type::Enum(enumeration(
        "E",
        None,
        vec![
            variant("Z", None, EnumFieldValue::Unit, 2),
            int_variant("A", None, 1, 3),
            variant("B", None, EnumFieldValue::Unit, 4),
            int_variant("C", None, 3, 5),
        ],
        1,
    ))];
    assert!(Analyzer::run(&fine).is_ok());
}

#[test]
fn struct_variant_fields_follow_their_versions() {
    let types = vec![Type::Enum(enumeration(
        "E",
        None,
        vec![
            variant("U", None, EnumFieldValue::Unit, 2),
            variant(
                "S",
                None,
                EnumFieldValue::Struct(vec![
                    field("a", ver(None, Some(2), 4), prim(Primitive::Int8, 4), 4),
                    field("b", ver(Some(2), None, 5), prim(Primitive::Int16, 5), 5),
                ]),
                3,
            ),
        ],
        1,
    ))];
    assert_eq!(
        Analyzer::run(&types).unwrap(),
        vec![
            module(vec![slot(
                0,
                vec![FieldIndex::Index(0), FieldIndex::EnumStruct(1, vec![0])]
            )]),
            module(vec![slot(
                0,
                vec![FieldIndex::Index(0), FieldIndex::EnumStruct(1, vec![1])]
            )]),
        ]
    );
}

#[test]
fn empty_declaration_list_gives_no_module() {
    assert_eq!(Analyzer::run(&[]), Ok(vec![]));
}

#[test]
fn kind_mismatch_reported_before_dangling_name() {
    let types = vec![
        Type::Struct(record("A", None, vec![field("x", None, named("Missing", 3), 3)], 2)),
        Type::Struct(record("B", None, vec![field("y", None, prim(Primitive::Any, 5), 5)], 4)),
    ];
    assert_eq!(Analyzer::run(&types), Err(err_at(ErrorKind::ReferenceKindMismatch, 5)));
}

#[test]
fn forward_reference_to_a_node_needs_a_reference() {
    let types = vec![
        Type::Struct(record("A", None, vec![field("x", None, named("N", 3), 3)], 2)),
        Type::Node(record("N", None, vec![], 4)),
    ];
    assert_eq!(Analyzer::run(&types), Err(err_at(ErrorKind::ReferenceKindMismatch, 3)));
}
