use uasset::codec::{ByteReader, ByteWriter};
use uasset::error::ErrorCode;
use uasset::types::new_guid;

fn le32c(v: i32) -> Vec<u8> {
    v.to_le_bytes().to_vec()
}

#[test]
fn guid_little_endian_limbs() {
    let g = new_guid(1, 2, 3, 4);
    assert_eq!(g, [1, 0, 0, 0, 2, 0, 0, 0, 3, 0, 0, 0, 4, 0, 0, 0]);
    let g2 = new_guid(0x04030201, 0, 0, 0xAABBCCDD);
    assert_eq!(&g2[0..4], &[0x01, 0x02, 0x03, 0x04]);
    assert_eq!(&g2[12..16], &[0xDD, 0xCC, 0xBB, 0xAA]);
}

#[test]
fn reader_primitives() {
    let mut data = vec![0x2Au8];
    data.extend_from_slice(&le32c(-7));
    data.extend_from_slice(&0x0102030405060708u64.to_le_bytes());
    let mut r = ByteReader::new(data);
    assert_eq!(r.read_u8().unwrap(), 0x2A);
    assert_eq!(r.read_i32().unwrap(), -7);
    assert_eq!(r.read_u64().unwrap(), 0x0102030405060708);
    assert!(matches!(r.read_u8().unwrap_err().code, ErrorCode::Io(_)));
}

#[test]
fn reader_truncated_is_io() {
    let mut r = ByteReader::new(vec![1, 2, 3]);
    assert!(matches!(r.read_i32().unwrap_err().code, ErrorCode::Io(_)));
    let mut r2 = ByteReader::new(vec![1, 2, 3]);
    assert!(matches!(r2.read_bytes(4).unwrap_err().code, ErrorCode::Io(_)));
    assert_eq!(r2.read_bytes(3).unwrap(), vec![1, 2, 3]);
}

#[test]
fn string_round_trip() {
    let mut w = ByteWriter::new();
    w.write_string(&Some("abc".to_string()));
    w.write_string(&None);
    let bytes = w.into_bytes();
    assert_eq!(
        bytes,
        vec![4, 0, 0, 0, b'a', b'b', b'c', 0, 0, 0, 0, 0]
    );
    let mut r = ByteReader::new(bytes);
    assert_eq!(r.read_string().unwrap(), Some("abc".to_string()));
    assert_eq!(r.read_string().unwrap(), None);
}

#[test]
fn string_missing_terminator_is_invalid() {
    let mut data = le32c(2);
    data.extend_from_slice(&[b'a', b'x']);
    let mut r = ByteReader::new(data);
    assert!(matches!(
        r.read_string().unwrap_err().code,
        ErrorCode::InvalidFile(_)
    ));
}

#[test]
fn string_non_ascii_is_invalid() {
    let mut data = le32c(2);
    data.extend_from_slice(&[200, 0]);
    let mut r = ByteReader::new(data);
    assert!(matches!(
        r.read_string().unwrap_err().code,
        ErrorCode::InvalidFile(_)
    ));
}

#[test]
fn string_negative_length_is_invalid() {
    let data = le32c(-3);
    let mut r = ByteReader::new(data);
    assert!(matches!(
        r.read_string().unwrap_err().code,
        ErrorCode::InvalidFile(_)
    ));
}

#[test]
fn string_truncated_is_io() {
    let mut data = le32c(10);
    data.extend_from_slice(&[b'a', b'b']);
    let mut r = ByteReader::new(data);
    assert!(matches!(r.read_string().unwrap_err().code, ErrorCode::Io(_)));
}

#[test]
fn optional_guid_forms() {
    let mut r = ByteReader::new(vec![0]);
    assert_eq!(r.read_property_guid().unwrap(), None);

    let mut data = vec![1u8];
    data.extend_from_slice(&[9u8; 16]);
    let mut r2 = ByteReader::new(data);
    assert_eq!(r2.read_property_guid().unwrap(), Some([9u8; 16]));

    let mut r3 = ByteReader::new(vec![2]);
    assert!(matches!(
        r3.read_property_guid().unwrap_err().code,
        ErrorCode::InvalidFile(_)
    ));

    let mut r4 = ByteReader::new(vec![1, 0, 0]);
    assert!(matches!(
        r4.read_property_guid().unwrap_err().code,
        ErrorCode::Io(_)
    ));
}

#[test]
fn writer_round_trips_through_reader() {
    let mut w = ByteWriter::new();
    w.write_u8(7);
    w.write_i32(-100);
    w.write_u64(u64::MAX);
    w.write_guid(&new_guid(5, 6, 7, 8));
    w.write_property_guid(&Some([3u8; 16]));
    w.write_property_guid(&None);
    let mut r = ByteReader::new(w.into_bytes());
    assert_eq!(r.read_u8().unwrap(), 7);
    assert_eq!(r.read_i32().unwrap(), -100);
    assert_eq!(r.read_u64().unwrap(), u64::MAX);
    assert_eq!(r.read_guid().unwrap(), new_guid(5, 6, 7, 8));
    assert_eq!(r.read_property_guid().unwrap(), Some([3u8; 16]));
    assert_eq!(r.read_property_guid().unwrap(), None);
    assert_eq!(r.position(), 1 + 4 + 8 + 16 + 17 + 1);
}
