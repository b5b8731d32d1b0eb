//! Reading a stored definition file.
use crate::define::{
    Definition, Enum, EnumField, EnumFieldType, EnumIntType, FieldType, Object, Primitive, Reference,
    Struct, StructField, Type,
};
use crate::repo::{decode_file, le_value, zlib_decompressed, Error, ReadState};
use vstd::prelude::*;

verus! {

broadcast use vstd::std_specs::vec::group_vec_axioms;

/// `v` as `n` little-endian bytes.
pub open spec fn le_bytes(v: nat, n: nat) -> Seq<u8>
    decreases n,
{
    if n == 0 {
        Seq::empty()
    } else {
        seq![(v % 256) as u8] + le_bytes(v / 256, (n - 1) as nat)
    }
}

pub open spec fn primitive_code(p: Primitive) -> u8 {
    match p {
        Primitive::Int8 => 0,
        Primitive::Int16 => 1,
        Primitive::Int32 => 2,
        Primitive::Int64 => 3,
        Primitive::UInt8 => 4,
        Primitive::UInt16 => 5,
        Primitive::UInt32 => 6,
        Primitive::UInt64 => 7,
        Primitive::Float32 => 8,
        Primitive::Float64 => 9,
        Primitive::Boolean => 10,
        Primitive::String => 11,
    }
}

/// The stored bytes of a field type: a kind byte, then what the kind holds.
pub open spec fn encode_field_type(ft: FieldType) -> Seq<u8>
    decreases ft, 0nat,
{
    match ft {
        FieldType::Type(i) => seq![0u8] + le_bytes(i as nat, 2),
        FieldType::Optional(x) => seq![1u8] + encode_field_type(*x),
        FieldType::Reference(Reference::Object(i)) => seq![2u8, 0u8] + le_bytes(i as nat, 2),
        FieldType::Reference(Reference::Any) => seq![2u8, 1u8],
        FieldType::Array { element_type, size } => seq![3u8] + encode_field_type(*element_type) + le_bytes(size as nat, 8),
        FieldType::Slice(x) => seq![4u8] + encode_field_type(*x),
        FieldType::Tuple(xs) => seq![5u8] + le_bytes(xs@.len(), 2) + encode_elements(xs@, xs@.len() as int),
        FieldType::Primitive(p) => seq![6u8, primitive_code(p)],
    }
}

/// The stored bytes of the first `n` of `xs`, one after the other.
pub open spec fn encode_elements(xs: Seq<FieldType>, n: int) -> Seq<u8>
    decreases xs, n,
{
    if n <= 0 || n > xs.len() {
        Seq::empty()
    } else {
        encode_elements(xs, n - 1) + encode_field_type(xs[n - 1])
    }
}

proof fn lemma_encode_elements_push(xs: Seq<FieldType>, x: FieldType, n: int)
    requires
        0 <= n <= xs.len(),
    ensures
        encode_elements(xs.push(x), n) == encode_elements(xs, n),
    decreases n,
{
    if n > 0 {
        lemma_encode_elements_push(xs, x, n - 1);
        assert(xs.push(x)[n - 1] == xs[n - 1]);
    }
}

/// The stored bytes of a string: its UTF-8 length in two bytes, then its
/// UTF-8 bytes.
pub open spec fn encode_string(s: Seq<char>) -> Seq<u8> {
    le_bytes(vstd::utf8::encode_utf8(s).len(), 2) + vstd::utf8::encode_utf8(s)
}

/// Whether `after` has read exactly `enc` from where `before` stood.
pub open spec fn consumed(before: ReadState, after: ReadState, enc: Seq<u8>) -> bool {
    &&& after.bytes@ == before.bytes@
    &&& before.cursor <= after.cursor <= after.bytes@.len()
    &&& before.bytes@.subrange(before.cursor as int, after.cursor as int) == enc
}

proof fn lemma_le_bytes_of_value(s: Seq<u8>)
    ensures
        le_bytes(le_value(s), s.len()) == s,
    decreases s.len(),
{
    if s.len() > 0 {
        let rest = s.subrange(1, s.len() as int);
        lemma_le_bytes_of_value(rest);
        let a = s[0] as nat;
        let b = le_value(rest);
        assert((a + 256 * b) % 256 == a && (a + 256 * b) / 256 == b) by (nonlinear_arith)
            requires a < 256;
        assert(le_bytes(le_value(s), s.len()) =~= seq![s[0]] + rest);
        assert(seq![s[0]] + rest =~= s);
    }
}

proof fn lemma_le_bytes_len(v: nat, n: nat)
    ensures
        le_bytes(v, n).len() == n,
    decreases n,
{
    if n > 0 {
        lemma_le_bytes_len(v / 256, (n - 1) as nat);
    }
}

proof fn lemma_concat(b: Seq<u8>, x: int, y: int, z: int)
    requires
        0 <= x <= y <= z <= b.len(),
    ensures
        b.subrange(x, z) == b.subrange(x, y) + b.subrange(y, z),
{
    assert(b.subrange(x, z) =~= b.subrange(x, y) + b.subrange(y, z));
}

proof fn lemma_consumed_then(s0: ReadState, s1: ReadState, s2: ReadState, e1: Seq<u8>, e2: Seq<u8>)
    requires
        consumed(s0, s1, e1),
        consumed(s1, s2, e2),
    ensures
        consumed(s0, s2, e1 + e2),
{
    lemma_concat(s0.bytes@, s0.cursor as int, s1.cursor as int, s2.cursor as int);
}

fn read_byte(state: &mut ReadState) -> (r: Result<u8, Error>)
    ensures
        final(state).bytes@ == old(state).bytes@,
        r matches Ok(v) ==> consumed(*old(state), *final(state), seq![v]),
        r matches Err(e) ==> e == Error::CorruptFile,
{
    let v = state.read_u8()?;
    proof {
        assert(old(state).bytes@.subrange(old(state).cursor as int, final(state).cursor as int) =~= seq![v]);
    }
    Ok(v)
}

fn read_two(state: &mut ReadState) -> (r: Result<u16, Error>)
    ensures
        final(state).bytes@ == old(state).bytes@,
        r matches Ok(v) ==> consumed(*old(state), *final(state), le_bytes(v as nat, 2)),
        r matches Err(e) ==> e == Error::CorruptFile,
{
    let v = state.read_u16()?;
    proof {
        lemma_le_bytes_of_value(old(state).ahead(2));
    }
    Ok(v)
}

fn read_four(state: &mut ReadState) -> (r: Result<u32, Error>)
    ensures
        final(state).bytes@ == old(state).bytes@,
        r matches Ok(v) ==> consumed(*old(state), *final(state), le_bytes(v as nat, 4)),
        r matches Err(e) ==> e == Error::CorruptFile,
{
    let v = state.read_u32()?;
    proof {
        lemma_le_bytes_of_value(old(state).ahead(4));
    }
    Ok(v)
}

fn read_eight(state: &mut ReadState) -> (r: Result<u64, Error>)
    ensures
        final(state).bytes@ == old(state).bytes@,
        r matches Ok(v) ==> consumed(*old(state), *final(state), le_bytes(v as nat, 8)),
        r matches Err(e) ==> e == Error::CorruptFile,
{
    let v = state.read_u64()?;
    proof {
        lemma_le_bytes_of_value(old(state).ahead(8));
    }
    Ok(v)
}

fn read_text(state: &mut ReadState) -> (r: Result<String, Error>)
    ensures
        final(state).bytes@ == old(state).bytes@,
        r matches Ok(s) ==> consumed(*old(state), *final(state), encode_string(s@)),
        r matches Err(e) ==> e == Error::CorruptFile,
{
    let s = state.read_string()?;
    proof {
        let b = old(state).bytes@;
        let c = old(state).cursor as int;
        lemma_le_bytes_of_value(old(state).ahead(2));
        lemma_concat(b, c, c + 2, final(state).cursor as int);
    }
    Ok(s)
}

fn primitive_from_u8(v: u8) -> (r: Option<Primitive>)
    ensures
        r matches Some(p) ==> primitive_code(p) == v,
        r is None ==> forall|p: Primitive| primitive_code(p) != v,
{
    match v {
        0 => Some(Primitive::Int8),
        1 => Some(Primitive::Int16),
        2 => Some(Primitive::Int32),
        3 => Some(Primitive::Int64),
        4 => Some(Primitive::UInt8),
        5 => Some(Primitive::UInt16),
        6 => Some(Primitive::UInt32),
        7 => Some(Primitive::UInt64),
        8 => Some(Primitive::Float32),
        9 => Some(Primitive::Float64),
        10 => Some(Primitive::Boolean),
        11 => Some(Primitive::String),
        _ => None,
    }
}

/// Reads one stored field type.
pub fn read_field_type(state: &mut ReadState) -> (r: Result<FieldType, Error>)
    ensures
        final(state).bytes@ == old(state).bytes@,
        r matches Ok(ft) ==> consumed(*old(state), *final(state), encode_field_type(ft)),
        r matches Err(e) ==> e == Error::CorruptFile,
    decreases old(state).bytes@.len() - old(state).cursor,
{
    let ghost s0 = *state;
    let kind = read_byte(state)?;
    let ghost s1 = *state;
    assert(s0.bytes@.subrange(s0.cursor as int, s1.cursor as int).len() == 1);
    match kind {
        0 => {
            let type_idx = read_two(state)?;
            proof {
                lemma_consumed_then(s0, s1, *state, seq![0u8], le_bytes(type_idx as nat, 2));
            }
            {
                let result = FieldType::Type(type_idx as usize);
                assert(consumed(s0, *state, encode_field_type(result)));
                Ok(result)
            }
        },
        1 => {
            let inner = read_field_type(state)?;
            proof {
                lemma_consumed_then(s0, s1, *state, seq![1u8], encode_field_type(inner));
            }
            {
                let result = FieldType::Optional(Box::new(inner));
                assert(consumed(s0, *state, encode_field_type(result)));
                Ok(result)
            }
        },
        2 => {
            let reference_kind = read_byte(state)?;
            let ghost s2 = *state;
            proof {
                lemma_consumed_then(s0, s1, s2, seq![2u8], seq![reference_kind]);
                assert(seq![2u8] + seq![reference_kind] =~= seq![2u8, reference_kind]);
            }
            match reference_kind {
                0 => {
                    let type_idx = read_two(state)?;
                    proof {
                        lemma_consumed_then(s0, s2, *state, seq![2u8, 0u8], le_bytes(type_idx as nat, 2));
                    }
                    {
                        let result = FieldType::Reference(Reference::Object(type_idx as usize));
                        assert(consumed(s0, *state, encode_field_type(result)));
                        Ok(result)
                    }
                },
                1 => Ok(FieldType::Reference(Reference::Any)),
                _ => Err(Error::CorruptFile),
            }
        },
        3 => {
            let element_type = read_field_type(state)?;
            let ghost s2 = *state;
            let size = read_eight(state)?;
            proof {
                lemma_consumed_then(s0, s1, s2, seq![3u8], encode_field_type(element_type));
                lemma_consumed_then(s0, s2, *state, seq![3u8] + encode_field_type(element_type), le_bytes(size as nat, 8));
            }
            {
                let result = FieldType::Array { element_type: Box::new(element_type), size };
                assert(consumed(s0, *state, encode_field_type(result)));
                Ok(result)
            }
        },
        4 => {
            let inner = read_field_type(state)?;
            proof {
                lemma_consumed_then(s0, s1, *state, seq![4u8], encode_field_type(inner));
            }
            {
                let result = FieldType::Slice(Box::new(inner));
                assert(consumed(s0, *state, encode_field_type(result)));
                Ok(result)
            }
        },
        5 => {
            let count = read_two(state)?;
            let ghost s2 = *state;
            proof {
                lemma_consumed_then(s0, s1, s2, seq![5u8], le_bytes(count as nat, 2));
                lemma_le_bytes_len(count as nat, 2);
            }
            let mut field_types: Vec<FieldType> = Vec::new();
            assert(s2.bytes@.subrange(s2.cursor as int, s2.cursor as int) =~= encode_elements(field_types@, 0));
            let mut k: u16 = 0;
            while k < count
                invariant
                    k <= count,
                    field_types@.len() == k,
                    consumed(s2, *state, encode_elements(field_types@, k as int)),
                    consumed(s0, s2, seq![5u8] + le_bytes(count as nat, 2)),
                    s0.bytes@ == old(state).bytes@,
                    s0.cursor == old(state).cursor,
                    s2.cursor == s0.cursor + 3,
                decreases count - k,
            {
                let ghost before = *state;
                let ghost xs = field_types@;
                assert(state.cursor > s0.cursor);
                let ft = read_field_type(state)?;
                field_types.push(ft);
                proof {
                    lemma_encode_elements_push(xs, ft, k as int);
                    assert(field_types@ == xs.push(ft));
                    assert(encode_elements(field_types@, k + 1) == encode_elements(xs, k as int) + encode_field_type(ft));
                    lemma_consumed_then(s2, before, *state, encode_elements(xs, k as int), encode_field_type(ft));
                }
                k += 1;
            }
            proof {
                lemma_consumed_then(s0, s2, *state, seq![5u8] + le_bytes(count as nat, 2), encode_elements(field_types@, count as int));
            }
            let result = FieldType::Tuple(field_types);
            assert(consumed(s0, *state, encode_field_type(result)));
            Ok(result)
        },
        6 => {
            let code = read_byte(state)?;
            match primitive_from_u8(code) {
                Some(p) => {
                    proof {
                        lemma_consumed_then(s0, s1, *state, seq![6u8], seq![code]);
                        assert(seq![6u8] + seq![code] =~= seq![6u8, primitive_code(p)]);
                    }
                    {
                        let result = FieldType::Primitive(p);
                        assert(consumed(s0, *state, encode_field_type(result)));
                        Ok(result)
                    }
                },
                None => Err(Error::CorruptFile),
            }
        },
        _ => Err(Error::CorruptFile),
    }
}

pub open spec fn encode_struct_field(f: StructField) -> Seq<u8> {
    encode_string(f.name@) + encode_field_type(f.field_type)
}

/// The stored bytes of the first `n` struct fields, one after the other.
pub open spec fn encode_struct_fields(fs: Seq<StructField>, n: int) -> Seq<u8>
    decreases n,
{
    if n <= 0 || n > fs.len() {
        Seq::empty()
    } else {
        encode_struct_fields(fs, n - 1) + encode_struct_field(fs[n - 1])
    }
}

/// The stored bytes of an enum discriminant: a kind byte, then the value in
/// as many little-endian bytes as its type has.
pub open spec fn encode_enum_int(t: EnumIntType) -> Seq<u8> {
    match t {
        EnumIntType::Int8(v) => seq![0u8, #[verifier::truncate] (v as u8)],
        EnumIntType::Int16(v) => seq![1u8] + le_bytes((#[verifier::truncate] (v as u16)) as nat, 2),
        EnumIntType::Int32(v) => seq![2u8] + le_bytes((#[verifier::truncate] (v as u32)) as nat, 4),
        EnumIntType::Int64(v) => seq![3u8] + le_bytes((#[verifier::truncate] (v as u64)) as nat, 8),
        EnumIntType::UInt8(v) => seq![4u8, v],
        EnumIntType::UInt16(v) => seq![5u8] + le_bytes(v as nat, 2),
        EnumIntType::UInt32(v) => seq![6u8] + le_bytes(v as nat, 4),
        EnumIntType::UInt64(v) => seq![7u8] + le_bytes(v as nat, 8),
    }
}

pub open spec fn encode_enum_field(f: EnumField) -> Seq<u8> {
    encode_string(f.name@) + match f.field_type {
        EnumFieldType::Unit => seq![0u8],
        EnumFieldType::Int(t) => seq![1u8] + encode_enum_int(t),
        EnumFieldType::Tuple(xs) => seq![2u8] + le_bytes(xs@.len(), 2) + encode_elements(xs@, xs@.len() as int),
        EnumFieldType::Struct(fs) => seq![3u8] + le_bytes(fs@.len(), 2) + encode_struct_fields(fs@, fs@.len() as int),
    }
}

pub open spec fn encode_enum_fields(fs: Seq<EnumField>, n: int) -> Seq<u8>
    decreases n,
{
    if n <= 0 || n > fs.len() {
        Seq::empty()
    } else {
        encode_enum_fields(fs, n - 1) + encode_enum_field(fs[n - 1])
    }
}

/// The stored bytes of a type: a kind byte, its name, its field count, and
/// its fields.
pub open spec fn encode_type(t: Type) -> Seq<u8> {
    match t {
        Type::Object(o) => seq![0u8] + encode_string(o.name@) + le_bytes(o.fields@.len(), 2) + encode_struct_fields(
            o.fields@,
            o.fields@.len() as int,
        ),
        Type::Struct(st) => seq![1u8] + encode_string(st.name@) + le_bytes(st.fields@.len(), 2) + encode_struct_fields(
            st.fields@,
            st.fields@.len() as int,
        ),
        Type::Enum(e) => seq![2u8] + encode_string(e.name@) + le_bytes(e.fields@.len(), 2) + encode_enum_fields(
            e.fields@,
            e.fields@.len() as int,
        ),
    }
}

pub open spec fn encode_types(ts: Seq<Type>, n: int) -> Seq<u8>
    decreases n,
{
    if n <= 0 || n > ts.len() {
        Seq::empty()
    } else {
        encode_types(ts, n - 1) + encode_type(ts[n - 1])
    }
}

/// The stored bytes of a definition: its address, its version (two bytes),
/// its type count (two bytes) and its types.
pub open spec fn encode_definition(d: Definition) -> Seq<u8> {
    encode_string(d.url@) + le_bytes(d.version as nat, 2) + le_bytes(d.types@.len(), 2) + encode_types(
        d.types@,
        d.types@.len() as int,
    )
}

proof fn lemma_struct_fields_push(fs: Seq<StructField>, x: StructField, n: int)
    requires
        0 <= n <= fs.len(),
    ensures
        encode_struct_fields(fs.push(x), n) == encode_struct_fields(fs, n),
    decreases n,
{
    if n > 0 {
        lemma_struct_fields_push(fs, x, n - 1);
        assert(fs.push(x)[n - 1] == fs[n - 1]);
    }
}

proof fn lemma_enum_fields_push(fs: Seq<EnumField>, x: EnumField, n: int)
    requires
        0 <= n <= fs.len(),
    ensures
        encode_enum_fields(fs.push(x), n) == encode_enum_fields(fs, n),
    decreases n,
{
    if n > 0 {
        lemma_enum_fields_push(fs, x, n - 1);
        assert(fs.push(x)[n - 1] == fs[n - 1]);
    }
}

proof fn lemma_types_push(ts: Seq<Type>, x: Type, n: int)
    requires
        0 <= n <= ts.len(),
    ensures
        encode_types(ts.push(x), n) == encode_types(ts, n),
    decreases n,
{
    if n > 0 {
        lemma_types_push(ts, x, n - 1);
        assert(ts.push(x)[n - 1] == ts[n - 1]);
    }
}

proof fn lemma_nothing_consumed(st: ReadState)
    requires
        st.cursor <= st.bytes@.len(),
    ensures
        consumed(st, st, Seq::empty()),
{
    assert(st.bytes@.subrange(st.cursor as int, st.cursor as int) =~= Seq::<u8>::empty());
}

fn read_struct_field(state: &mut ReadState) -> (r: Result<StructField, Error>)
    ensures
        final(state).bytes@ == old(state).bytes@,
        r matches Ok(f) ==> consumed(*old(state), *final(state), encode_struct_field(f)),
        r matches Err(e) ==> e == Error::CorruptFile,
{
    let ghost s0 = *state;
    let name = read_text(state)?;
    let ghost s1 = *state;
    let field_type = read_field_type(state)?;
    proof {
        lemma_consumed_then(s0, s1, *state, encode_string(name@), encode_field_type(field_type));
    }
    Ok(StructField { name, field_type })
}

/// Reads `count` struct fields.
fn read_struct_fields(state: &mut ReadState, count: u16) -> (r: Result<Vec<StructField>, Error>)
    ensures
        final(state).bytes@ == old(state).bytes@,
        r matches Ok(fs) ==> fs@.len() == count && consumed(*old(state), *final(state), encode_struct_fields(fs@, count as int)),
        r matches Err(e) ==> e == Error::CorruptFile,
{
    let ghost s0 = *state;
    if state.cursor > state.bytes.len() {
        return Err(Error::CorruptFile);
    }
    let mut fields: Vec<StructField> = Vec::new();
    proof {
        lemma_nothing_consumed(s0);
    }
    let mut k: u16 = 0;
    while k < count
        invariant
            k <= count,
            fields@.len() == k,
            s0 == *old(state),
            state.bytes@ == s0.bytes@,
            consumed(s0, *state, encode_struct_fields(fields@, k as int)),
        decreases count - k,
    {
        let ghost before = *state;
        let ghost fs = fields@;
        let f = read_struct_field(state)?;
        let ghost fv = f;
        fields.push(f);
        proof {
            lemma_struct_fields_push(fs, fv, k as int);
            assert(fields@ == fs.push(fv));
            lemma_consumed_then(s0, before, *state, encode_struct_fields(fs, k as int), encode_struct_field(fv));
        }
        k += 1;
    }
    Ok(fields)
}

/// Reads a count (two bytes) and that many field types.
fn read_tuple_field_types(state: &mut ReadState) -> (r: Result<Vec<FieldType>, Error>)
    ensures
        final(state).bytes@ == old(state).bytes@,
        r matches Ok(xs) ==> consumed(
            *old(state),
            *final(state),
            le_bytes(xs@.len(), 2) + encode_elements(xs@, xs@.len() as int),
        ),
        r matches Err(e) ==> e == Error::CorruptFile,
{
    let ghost s0 = *state;
    let count = read_two(state)?;
    let ghost s1 = *state;
    let mut field_types: Vec<FieldType> = Vec::new();
    proof {
        lemma_nothing_consumed(s1);
    }
    let mut k: u16 = 0;
    while k < count
        invariant
            k <= count,
            field_types@.len() == k,
            state.bytes@ == s1.bytes@,
            s1.bytes@ == s0.bytes@,
            s0 == *old(state),
            consumed(s0, s1, le_bytes(count as nat, 2)),
            consumed(s1, *state, encode_elements(field_types@, k as int)),
        decreases count - k,
    {
        let ghost before = *state;
        let ghost xs = field_types@;
        let ft = read_field_type(state)?;
        field_types.push(ft);
        proof {
            lemma_encode_elements_push(xs, ft, k as int);
            assert(field_types@ == xs.push(ft));
            lemma_consumed_then(s1, before, *state, encode_elements(xs, k as int), encode_field_type(ft));
        }
        k += 1;
    }
    proof {
        lemma_consumed_then(s0, s1, *state, le_bytes(count as nat, 2), encode_elements(field_types@, count as int));
    }
    Ok(field_types)
}

fn read_enum_int(state: &mut ReadState) -> (r: Result<EnumIntType, Error>)
    ensures
        final(state).bytes@ == old(state).bytes@,
        r matches Ok(t) ==> consumed(*old(state), *final(state), encode_enum_int(t)),
        r matches Err(e) ==> e == Error::CorruptFile,
{
    let ghost s0 = *state;
    let kind = read_byte(state)?;
    let ghost s1 = *state;
    let result = match kind {
        0 => {
            let v = read_byte(state)?;
            proof {
                lemma_consumed_then(s0, s1, *state, seq![0u8], seq![v]);
                assert((#[verifier::truncate] ((#[verifier::truncate] (v as i8)) as u8)) == v) by (bit_vector);
                assert(seq![0u8] + seq![v] =~= seq![0u8, #[verifier::truncate] ((#[verifier::truncate] (v as i8)) as u8)]);
            }
            EnumIntType::Int8(#[verifier::truncate] (v as i8))
        },
        1 => {
            let v = read_two(state)?;
            proof {
                lemma_consumed_then(s0, s1, *state, seq![1u8], le_bytes(v as nat, 2));
                assert((#[verifier::truncate] ((#[verifier::truncate] (v as i16)) as u16)) == v) by (bit_vector);
            }
            EnumIntType::Int16(#[verifier::truncate] (v as i16))
        },
        2 => {
            let v = read_four(state)?;
            proof {
                lemma_consumed_then(s0, s1, *state, seq![2u8], le_bytes(v as nat, 4));
                assert((#[verifier::truncate] ((#[verifier::truncate] (v as i32)) as u32)) == v) by (bit_vector);
            }
            EnumIntType::Int32(#[verifier::truncate] (v as i32))
        },
        3 => {
            let v = read_eight(state)?;
            proof {
                lemma_consumed_then(s0, s1, *state, seq![3u8], le_bytes(v as nat, 8));
                assert((#[verifier::truncate] ((#[verifier::truncate] (v as i64)) as u64)) == v) by (bit_vector);
            }
            EnumIntType::Int64(#[verifier::truncate] (v as i64))
        },
        4 => {
            let v = read_byte(state)?;
            proof {
                lemma_consumed_then(s0, s1, *state, seq![4u8], seq![v]);
                assert(seq![4u8] + seq![v] =~= seq![4u8, v]);
            }
            EnumIntType::UInt8(v)
        },
        5 => {
            let v = read_two(state)?;
            proof {
                lemma_consumed_then(s0, s1, *state, seq![5u8], le_bytes(v as nat, 2));
            }
            EnumIntType::UInt16(v)
        },
        6 => {
            let v = read_four(state)?;
            proof {
                lemma_consumed_then(s0, s1, *state, seq![6u8], le_bytes(v as nat, 4));
            }
            EnumIntType::UInt32(v)
        },
        7 => {
            let v = read_eight(state)?;
            proof {
                lemma_consumed_then(s0, s1, *state, seq![7u8], le_bytes(v as nat, 8));
            }
            EnumIntType::UInt64(v)
        },
        _ => {
            return Err(Error::CorruptFile);
        },
    };
    Ok(result)
}

fn read_enum_field(state: &mut ReadState) -> (r: Result<EnumField, Error>)
    ensures
        final(state).bytes@ == old(state).bytes@,
        r matches Ok(f) ==> consumed(*old(state), *final(state), encode_enum_field(f)),
        r matches Err(e) ==> e == Error::CorruptFile,
{
    let ghost s0 = *state;
    let name = read_text(state)?;
    let ghost s1 = *state;
    let kind = read_byte(state)?;
    let ghost s2 = *state;
    proof {
        lemma_consumed_then(s0, s1, s2, encode_string(name@), seq![kind]);
    }
    let field_type = match kind {
        0 => EnumFieldType::Unit,
        1 => {
            let t = read_enum_int(state)?;
            proof {
                lemma_consumed_then(s0, s2, *state, encode_string(name@) + seq![kind], encode_enum_int(t));
            }
            EnumFieldType::Int(t)
        },
        2 => {
            let xs = read_tuple_field_types(state)?;
            proof {
                lemma_consumed_then(
                    s0,
                    s2,
                    *state,
                    encode_string(name@) + seq![kind],
                    le_bytes(xs@.len(), 2) + encode_elements(xs@, xs@.len() as int),
                );
            }
            EnumFieldType::Tuple(xs)
        },
        3 => {
            let count = read_two(state)?;
            let ghost s3 = *state;
            let fs = read_struct_fields(state, count)?;
            proof {
                lemma_consumed_then(s0, s2, s3, encode_string(name@) + seq![kind], le_bytes(count as nat, 2));
                lemma_consumed_then(
                    s0,
                    s3,
                    *state,
                    encode_string(name@) + seq![kind] + le_bytes(count as nat, 2),
                    encode_struct_fields(fs@, count as int),
                );
            }
            EnumFieldType::Struct(fs)
        },
        _ => {
            return Err(Error::CorruptFile);
        },
    };
    let result = EnumField { name, field_type };
    proof {
        let nm = encode_string(result.name@);
        match result.field_type {
            EnumFieldType::Unit => {
                assert(nm + seq![kind] == encode_enum_field(result));
            },
            EnumFieldType::Int(t) => {
                assert(nm + seq![kind] + encode_enum_int(t) =~= encode_enum_field(result));
            },
            EnumFieldType::Tuple(ref xs) => {
                assert(nm + seq![kind] + (le_bytes(xs@.len(), 2) + encode_elements(xs@, xs@.len() as int)) =~= encode_enum_field(
                    result,
                ));
            },
            EnumFieldType::Struct(ref fs) => {
                assert(nm + seq![kind] + le_bytes(fs@.len(), 2) + encode_struct_fields(fs@, fs@.len() as int) =~= encode_enum_field(
                    result,
                ));
            },
        }
    }
    Ok(result)
}

fn read_enum_fields(state: &mut ReadState, count: u16) -> (r: Result<Vec<EnumField>, Error>)
    ensures
        final(state).bytes@ == old(state).bytes@,
        r matches Ok(fs) ==> fs@.len() == count && consumed(*old(state), *final(state), encode_enum_fields(fs@, count as int)),
        r matches Err(e) ==> e == Error::CorruptFile,
{
    let ghost s0 = *state;
    if state.cursor > state.bytes.len() {
        return Err(Error::CorruptFile);
    }
    let mut fields: Vec<EnumField> = Vec::new();
    proof {
        lemma_nothing_consumed(s0);
    }
    let mut k: u16 = 0;
    while k < count
        invariant
            k <= count,
            fields@.len() == k,
            s0 == *old(state),
            state.bytes@ == s0.bytes@,
            consumed(s0, *state, encode_enum_fields(fields@, k as int)),
        decreases count - k,
    {
        let ghost before = *state;
        let ghost fs = fields@;
        let f = read_enum_field(state)?;
        let ghost fv = f;
        fields.push(f);
        proof {
            lemma_enum_fields_push(fs, fv, k as int);
            assert(fields@ == fs.push(fv));
            lemma_consumed_then(s0, before, *state, encode_enum_fields(fs, k as int), encode_enum_field(fv));
        }
        k += 1;
    }
    Ok(fields)
}

/// Reads one stored type.
fn read_type(state: &mut ReadState) -> (r: Result<Type, Error>)
    ensures
        final(state).bytes@ == old(state).bytes@,
        r matches Ok(t) ==> consumed(*old(state), *final(state), encode_type(t)),
        r matches Err(e) ==> e == Error::CorruptFile,
{
    let ghost s0 = *state;
    let kind = read_byte(state)?;
    if kind > 2 {
        return Err(Error::CorruptFile);
    }
    let ghost s1 = *state;
    let name = read_text(state)?;
    let ghost s2 = *state;
    let count = read_two(state)?;
    let ghost s3 = *state;
    proof {
        lemma_consumed_then(s0, s1, s2, seq![kind], encode_string(name@));
        lemma_consumed_then(s0, s2, s3, seq![kind] + encode_string(name@), le_bytes(count as nat, 2));
    }
    let ghost head = seq![kind] + encode_string(name@) + le_bytes(count as nat, 2);
    if kind == 2 {
        let fields = read_enum_fields(state, count)?;
        proof {
            lemma_consumed_then(s0, s3, *state, head, encode_enum_fields(fields@, count as int));
        }
        Ok(Type::Enum(Enum { name, fields }))
    } else {
        let fields = read_struct_fields(state, count)?;
        proof {
            lemma_consumed_then(s0, s3, *state, head, encode_struct_fields(fields@, count as int));
        }
        if kind == 0 {
            Ok(Type::Object(Object { name, fields }))
        } else {
            Ok(Type::Struct(Struct { name, fields }))
        }
    }
}

/// A definition stored in a repository, under the hash that names it.
#[derive(Debug, PartialEq, Eq)]
pub struct StoredDefinition {
    pub hash: [u8; 32],
    pub definition: Definition,
}

/// Reads the definition at the start of a decoded definition file.
pub fn read_definition(bytes: &[u8]) -> (r: Result<Definition, Error>)
    ensures
        r matches Ok(d) ==> {
            &&& encode_definition(d).len() <= bytes@.len()
            &&& bytes@.subrange(0, encode_definition(d).len() as int) == encode_definition(d)
        },
        r matches Err(e) ==> e == Error::CorruptFile,
{
    let mut state = ReadState::new(bytes);
    let ghost s0 = state;
    let url = read_text(&mut state)?;
    let ghost s1 = state;
    let version = read_two(&mut state)?;
    let ghost s2 = state;
    let count = read_two(&mut state)?;
    let ghost s3 = state;
    proof {
        lemma_consumed_then(s0, s1, s2, encode_string(url@), le_bytes(version as nat, 2));
        lemma_consumed_then(s0, s2, s3, encode_string(url@) + le_bytes(version as nat, 2), le_bytes(count as nat, 2));
        lemma_nothing_consumed(s3);
    }
    let ghost head = encode_string(url@) + le_bytes(version as nat, 2) + le_bytes(count as nat, 2);
    let mut types: Vec<Type> = Vec::new();
    let mut k: u16 = 0;
    while k < count
        invariant
            k <= count,
            types@.len() == k,
            state.bytes@ == s3.bytes@,
            consumed(s3, state, encode_types(types@, k as int)),
        decreases count - k,
    {
        let ghost before = state;
        let ghost ts = types@;
        let t = read_type(&mut state)?;
        let ghost tv = t;
        types.push(t);
        proof {
            lemma_types_push(ts, tv, k as int);
            assert(types@ == ts.push(tv));
            lemma_consumed_then(s3, before, state, encode_types(ts, k as int), encode_type(tv));
        }
        k += 1;
    }
    proof {
        lemma_consumed_then(s0, s3, state, head, encode_types(types@, count as int));
    }
    Ok(Definition { url, version, types })
}

/// Reads a definition file, named by `hash` and holding `contents`, onto
/// the end of `definitions`.
pub fn read_definition_file(contents: &[u8], hash: [u8; 32], definitions: &mut Vec<StoredDefinition>) -> (r: Result<(), Error>)
    ensures
        r is Ok ==> {
            let d = final(definitions)@.last().definition;
            &&& final(definitions)@.len() == old(definitions)@.len() + 1
            &&& final(definitions)@.subrange(0, old(definitions)@.len() as int) == old(definitions)@
            &&& final(definitions)@.last().hash == hash
            &&& encode_definition(d).len() <= zlib_decompressed(contents@).len()
            &&& zlib_decompressed(contents@).subrange(0, encode_definition(d).len() as int) == encode_definition(d)
        },
        r is Err ==> final(definitions)@ == old(definitions)@,
        r matches Err(e) ==> e == Error::Compression || e == Error::CorruptFile,
{
    let bytes = decode_file(contents)?;
    let definition = read_definition(bytes.as_slice())?;
    definitions.push(StoredDefinition { hash, definition });
    assert(definitions@.subrange(0, old(definitions)@.len() as int) =~= old(definitions)@);
    Ok(())
}

} // verus!
