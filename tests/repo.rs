use cyder::repo::{
    decode_file, hash_bytes_to_hex, hash_hex_to_bytes, read_object_file, Error, ReadState,
    StoredObject,
};
use std::io::Write;

fn compress(bytes: &[u8]) -> Vec<u8> {
    let mut encoder = flate2::write::ZlibEncoder::new(Vec::new(), flate2::Compression::default());
    encoder.write_all(bytes).unwrap();
    encoder.finish().unwrap()
}

#[test]
fn reads_little_endian_numbers_in_order() {
    let bytes: Vec<u8> = (1..=15).collect();
    let mut state = ReadState::new(&bytes);
    assert_eq!(state.read_u8(), Ok(1));
    assert_eq!(state.read_u16(), Ok(0x0302));
    assert_eq!(state.read_u32(), Ok(0x0706_0504));
    assert!(!state.at_end());
    assert_eq!(state.read_u64(), Ok(0x0f0e_0d0c_0b0a_0908));
    assert!(state.at_end());
    assert_eq!(state.read_u8(), Err(Error::CorruptFile));
}

#[test]
fn short_read_fails_and_keeps_position() {
    let bytes = [9u8, 8, 7];
    let mut state = ReadState::new(&bytes);
    assert_eq!(state.read_u32(), Err(Error::CorruptFile));
    assert_eq!(state.cursor, 0);
    let mut buf = [0u8; 4];
    assert_eq!(state.copy_bytes(&mut buf), Err(Error::CorruptFile));
    let mut buf = [0u8; 2];
    assert_eq!(state.copy_bytes(&mut buf), Ok(()));
    assert_eq!(buf, [9, 8]);
    assert_eq!(state.read_bytes(1), Ok(vec![7]));
    assert_eq!(state.read_bytes(0), Ok(vec![]));
    assert_eq!(state.read_bytes(1), Err(Error::CorruptFile));
}

#[test]
fn reads_length_prefixed_strings() {
    let bytes = [3u8, 0, b'a', b'b', b'c', 2, 0, 0xff, 0xfe, 9, 0, b'x'];
    let mut state = ReadState::new(&bytes);
    assert_eq!(state.read_string(), Ok("abc".to_string()));
    assert_eq!(state.read_string(), Err(Error::CorruptFile));
    assert_eq!(state.read_string(), Err(Error::CorruptFile));
}

#[test]
fn hash_names_are_lower_case_hex() {
    let mut hash = [0u8; 32];
    for (i, b) in hash.iter_mut().enumerate() {
        *b = (i as u8) * 8 + 1;
    }
    let name = hash_bytes_to_hex(&hash);
    assert_eq!(&name[..8], "01091119");
    assert_eq!(name.len(), 64);
    assert_eq!(hash_bytes_to_hex(&[0xab; 32]), "ab".repeat(32));
    assert_eq!(hash_hex_to_bytes(&name), Some(hash));
}

#[test]
fn hash_name_digits_of_either_case() {
    assert_eq!(hash_hex_to_bytes(&"Ab".repeat(32)), Some([0xab; 32]));
    assert_eq!(hash_hex_to_bytes(&"0f".repeat(33)), Some([0x0f; 32]));
    assert_eq!(hash_hex_to_bytes(&"ab".repeat(31)), None);
    assert_eq!(hash_hex_to_bytes(&format!("{}-0", "ab".repeat(31))), None);
}

#[test]
fn decodes_zlib_contents() {
    let plain = b"versioned schema".to_vec();
    assert_eq!(decode_file(&compress(&plain)), Ok(plain));
    assert_eq!(decode_file(&[1, 2, 3, 4]), Err(Error::Compression));
}

fn object_file_body() -> Vec<u8> {
    let mut body = vec![7u8; 32];
    body.extend_from_slice(&2u64.to_le_bytes());
    body.extend_from_slice(&3u16.to_le_bytes());
    body.extend_from_slice(&9u64.to_le_bytes());
    body.extend_from_slice(&2u64.to_le_bytes());
    body.extend_from_slice(&[1, 2]);
    body.extend_from_slice(&4u16.to_le_bytes());
    body.extend_from_slice(&10u64.to_le_bytes());
    body.extend_from_slice(&0u64.to_le_bytes());
    body.extend_from_slice(&[8u8; 32]);
    body.extend_from_slice(&0u64.to_le_bytes());
    body
}

#[test]
fn reads_object_groups() {
    let name = hash_bytes_to_hex(&[5; 32]);
    let mut objects = Vec::new();
    let hashes = read_object_file(&name, &compress(&object_file_body()), &mut objects).unwrap();
    assert_eq!(hashes, vec![[7; 32], [8; 32]]);
    assert_eq!(
        objects,
        vec![
            StoredObject { hash: [5; 32], idx: 9, def_hash: [7; 32], def_idx: 3, data: vec![1, 2] },
            StoredObject { hash: [5; 32], idx: 10, def_hash: [7; 32], def_idx: 4, data: vec![] },
        ]
    );
}

#[test]
fn truncated_object_file_is_corrupt() {
    let name = hash_bytes_to_hex(&[5; 32]);
    let mut body = object_file_body();
    body.pop();
    let mut objects = Vec::new();
    assert_eq!(read_object_file(&name, &compress(&body), &mut objects), Err(Error::CorruptFile));
}

#[test]
fn object_file_needs_a_hash_name() {
    let mut objects = Vec::new();
    assert_eq!(
        read_object_file("objects.bin", &compress(&object_file_body()), &mut objects),
        Err(Error::InvalidObjectFileName)
    );
    assert!(objects.is_empty());
}
