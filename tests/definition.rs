use cyder::define::{
    Definition, Enum, EnumField, EnumFieldType, EnumIntType, FieldType, Object, Primitive, Reference,
    Struct, StructField, Type,
};
use cyder::definition::{read_definition, read_definition_file, StoredDefinition};
use cyder::repo::Error;
use std::io::Write;

fn text(out: &mut Vec<u8>, s: &str) {
    out.extend_from_slice(&(s.len() as u16).to_le_bytes());
    out.extend_from_slice(s.as_bytes());
}

fn stored_bytes() -> Vec<u8> {
    let mut b = Vec::new();
    text(&mut b, "repo://schemes/a");
    b.extend_from_slice(&3u16.to_le_bytes());
    b.extend_from_slice(&3u16.to_le_bytes());
    // object "Obj" { a: u8 }
    b.push(0);
    text(&mut b, "Obj");
    b.extend_from_slice(&1u16.to_le_bytes());
    text(&mut b, "a");
    b.extend_from_slice(&[6, 4]);
    // enum "E"
    b.push(2);
    text(&mut b, "E");
    b.extend_from_slice(&4u16.to_le_bytes());
    text(&mut b, "Z");
    b.push(0);
    text(&mut b, "I");
    b.extend_from_slice(&[1, 1]);
    b.extend_from_slice(&(-2i16).to_le_bytes());
    text(&mut b, "T");
    b.push(2);
    b.extend_from_slice(&2u16.to_le_bytes());
    b.push(0);
    b.extend_from_slice(&1u16.to_le_bytes());
    b.extend_from_slice(&[2, 1]);
    text(&mut b, "S");
    b.push(3);
    b.extend_from_slice(&1u16.to_le_bytes());
    text(&mut b, "s");
    b.extend_from_slice(&[3, 1, 4, 6, 10]);
    b.extend_from_slice(&4u64.to_le_bytes());
    // struct "St" { r: ref<Obj>, t: () }
    b.push(1);
    text(&mut b, "St");
    b.extend_from_slice(&2u16.to_le_bytes());
    text(&mut b, "r");
    b.extend_from_slice(&[2, 0]);
    b.extend_from_slice(&0u16.to_le_bytes());
    text(&mut b, "t");
    b.push(5);
    b.extend_from_slice(&0u16.to_le_bytes());
    b
}

fn expected() -> Definition {
    Definition {
        url: "repo://schemes/a".to_string(),
        version: 3,
        types: vec![
            Type::Object(Object {
                name: "Obj".to_string(),
                fields: vec![StructField {
                    name: "a".to_string(),
                    field_type: FieldType::Primitive(Primitive::UInt8),
                }],
            }),
            Type::Enum(Enum {
                name: "E".to_string(),
                fields: vec![
                    EnumField { name: "Z".to_string(), field_type: EnumFieldType::Unit },
                    EnumField {
                        name: "I".to_string(),
                        field_type: EnumFieldType::Int(EnumIntType::Int16(-2)),
                    },
                    EnumField {
                        name: "T".to_string(),
                        field_type: EnumFieldType::Tuple(vec![
                            FieldType::Type(1),
                            FieldType::Reference(Reference::Any),
                        ]),
                    },
                    EnumField {
                        name: "S".to_string(),
                        field_type: EnumFieldType::Struct(vec![StructField {
                            name: "s".to_string(),
                            field_type: FieldType::Array {
                                element_type: Box::new(FieldType::Optional(Box::new(
                                    FieldType::Slice(Box::new(FieldType::Primitive(Primitive::Boolean))),
                                ))),
                                size: 4,
                            },
                        }]),
                    },
                ],
            }),
            Type::Struct(Struct {
                name: "St".to_string(),
                fields: vec![
                    StructField {
                        name: "r".to_string(),
                        field_type: FieldType::Reference(Reference::Object(0)),
                    },
                    StructField { name: "t".to_string(), field_type: FieldType::Tuple(vec![]) },
                ],
            }),
        ],
    }
}

#[test]
fn reads_every_kind_of_stored_type() {
    assert_eq!(read_definition(&stored_bytes()), Ok(expected()));
}

#[test]
fn trailing_bytes_after_a_definition_are_left() {
    let mut bytes = stored_bytes();
    bytes.extend_from_slice(&[0xee, 0xee]);
    assert_eq!(read_definition(&bytes), Ok(expected()));
}

#[test]
fn unknown_kind_or_short_file_is_corrupt() {
    let mut bytes = stored_bytes();
    let last_kind = bytes.len() - 3;
    assert_eq!(bytes[last_kind], 5);
    bytes[last_kind] = 9;
    assert_eq!(read_definition(&bytes), Err(Error::CorruptFile));
    let mut short = stored_bytes();
    short.pop();
    assert_eq!(read_definition(&short), Err(Error::CorruptFile));
}

#[test]
fn reads_compressed_definition_file() {
    let mut encoder = flate2::write::ZlibEncoder::new(Vec::new(), flate2::Compression::default());
    encoder.write_all(&stored_bytes()).unwrap();
    let contents = encoder.finish().unwrap();
    let mut definitions = Vec::new();
    assert_eq!(read_definition_file(&contents, [4; 32], &mut definitions), Ok(()));
    assert_eq!(definitions, vec![StoredDefinition { hash: [4; 32], definition: expected() }]);
    assert_eq!(read_definition_file(&[9, 9], [4; 32], &mut definitions), Err(Error::Compression));
    assert_eq!(definitions.len(), 1);
}
