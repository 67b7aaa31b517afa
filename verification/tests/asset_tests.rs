use uasset::asset::{Asset, CustomVersion, CustomVersionKey};
use uasset::codec::{ByteReader, ByteWriter};
use uasset::error::ErrorCode;
use uasset::types::FName;

fn asset_with_overrides() -> Asset {
    Asset {
        name_map: vec!["None".to_string(), "Alpha".to_string(), "Beta".to_string()],
        custom_versions: vec![CustomVersion {
            key: CustomVersionKey::ReleaseObjectVersion,
            version: 11,
        }],
        map_key_override: vec![("Target".to_string(), "Vector".to_string())],
        map_value_override: vec![("Target".to_string(), "Rotator".to_string())],
    }
}

#[test]
fn fname_table_round_trip() {
    let a = asset_with_overrides();
    let mut w = ByteWriter::new();
    a.write_fname(&mut w, &FName::new("Beta".to_string(), 4)).unwrap();
    let bytes = w.into_bytes();
    let mut expected = 2i32.to_le_bytes().to_vec();
    expected.extend_from_slice(&4i32.to_le_bytes());
    assert_eq!(bytes, expected);
    let mut r = ByteReader::new(bytes);
    let f = a.read_fname(&mut r).unwrap();
    assert_eq!(f.content, "Beta");
    assert_eq!(f.index, 4);
}

#[test]
fn fname_unknown_string_cannot_be_written() {
    let a = asset_with_overrides();
    let mut w = ByteWriter::new();
    assert!(matches!(
        a.write_fname(&mut w, &FName::new("Gamma".to_string(), 0))
            .unwrap_err()
            .code,
        ErrorCode::InvalidFile(_)
    ));
    assert!(w.into_bytes().is_empty());
}

#[test]
fn fname_slot_out_of_range_is_invalid() {
    let a = asset_with_overrides();
    let mut bytes = 9i32.to_le_bytes().to_vec();
    bytes.extend_from_slice(&0i32.to_le_bytes());
    let mut r = ByteReader::new(bytes);
    assert!(matches!(
        a.read_fname(&mut r).unwrap_err().code,
        ErrorCode::InvalidFile(_)
    ));
}

#[test]
fn override_tables_pick_a_side() {
    let a = asset_with_overrides();
    assert_eq!(a.resolve_struct_type(&"Target".to_string(), true), "Vector");
    assert_eq!(a.resolve_struct_type(&"Target".to_string(), false), "Rotator");
    assert_eq!(a.resolve_struct_type(&"Absent".to_string(), true), "Generic");
    assert_eq!(a.resolve_struct_type(&"Absent".to_string(), false), "Generic");
}

#[test]
fn custom_version_lookup() {
    let a = asset_with_overrides();
    assert_eq!(a.get_custom_version(CustomVersionKey::ReleaseObjectVersion), Some(11));
    assert_eq!(a.get_custom_version(CustomVersionKey::FrameworkObjectVersion), None);
    assert!(a.reads_ufield_next());
    assert!(!a.reads_rep_condition());
}
