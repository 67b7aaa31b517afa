use uasset::asset::{
    Asset, CustomVersion, CustomVersionKey, FRAMEWORK_REMOVE_UFIELD_NEXT,
    RELEASE_PROPERTIES_SERIALIZE_REP_CONDITION,
};
use uasset::codec::ByteReader;
use uasset::error::ErrorCode;
use uasset::flags::{
    array_dim_from_i32, array_dim_to_i32, lifetime_condition_from_u8, lifetime_condition_to_u8,
    EArrayDim, ELifetimeCondition, EPropertyFlags,
};
use uasset::types::FName;
use uasset::uproperty::{UBoolProperty, UField, UGenericProperty, UProperty};

fn desc_names() -> Vec<String> {
    vec!["None".to_string(), "RepFunc".to_string()]
}

fn desc_asset(framework: i32, release: i32) -> Asset {
    Asset {
        name_map: desc_names(),
        custom_versions: vec![
            CustomVersion { key: CustomVersionKey::FrameworkObjectVersion, version: framework },
            CustomVersion { key: CustomVersionKey::ReleaseObjectVersion, version: release },
        ],
        map_key_override: Vec::new(),
        map_value_override: Vec::new(),
    }
}

/// The generic header without next field and without rep condition:
/// array dimension, flags, and the notify name at slot 1.
fn generic_header_bytes() -> Vec<u8> {
    let mut b = Vec::new();
    b.extend_from_slice(&1i32.to_le_bytes());
    b.extend_from_slice(&1u64.to_le_bytes());
    b.extend_from_slice(&1i32.to_le_bytes());
    b.extend_from_slice(&0i32.to_le_bytes());
    b
}

#[test]
fn array_dim_codes() {
    assert_eq!(array_dim_from_i32(0).unwrap(), EArrayDim::NotAnArray);
    assert_eq!(array_dim_from_i32(1).unwrap(), EArrayDim::TArray);
    assert_eq!(array_dim_from_i32(2).unwrap(), EArrayDim::CArrayDimension);
    assert!(matches!(
        array_dim_from_i32(3).unwrap_err().code,
        ErrorCode::InvalidEnumValue(_)
    ));
    assert_eq!(array_dim_to_i32(EArrayDim::TArray), 1);
}

#[test]
fn lifetime_condition_codes() {
    assert_eq!(lifetime_condition_from_u8(0).unwrap(), ELifetimeCondition::CondNone);
    assert_eq!(lifetime_condition_from_u8(13).unwrap(), ELifetimeCondition::CondSkipReplay);
    assert_eq!(lifetime_condition_from_u8(15).unwrap(), ELifetimeCondition::CondNever);
    assert!(matches!(
        lifetime_condition_from_u8(14).unwrap_err().code,
        ErrorCode::InvalidEnumValue(_)
    ));
    assert!(matches!(
        lifetime_condition_from_u8(16).unwrap_err().code,
        ErrorCode::InvalidEnumValue(_)
    ));
    assert_eq!(lifetime_condition_to_u8(ELifetimeCondition::CondNever), 15);
}

#[test]
fn property_flags_validation() {
    assert_eq!(EPropertyFlags::from_u64(1).unwrap().bits, 1);
    assert_eq!(
        EPropertyFlags::from_u64(0x00FF_FFFF_FFFF_FFFF).unwrap().bits,
        0x00FF_FFFF_FFFF_FFFF
    );
    assert!(matches!(
        EPropertyFlags::from_u64(1u64 << 63).unwrap_err().code,
        ErrorCode::InvalidEnumValue(_)
    ));
}

#[test]
fn ufield_next_is_version_gated() {
    let old = desc_asset(FRAMEWORK_REMOVE_UFIELD_NEXT - 1, RELEASE_PROPERTIES_SERIALIZE_REP_CONDITION);
    let mut r = ByteReader::new(7i32.to_le_bytes().to_vec());
    let f = UField::new(&old, &mut r).unwrap();
    assert_eq!(f.next.unwrap().index, 7);
    assert_eq!(r.position(), 4);

    let new = desc_asset(FRAMEWORK_REMOVE_UFIELD_NEXT, RELEASE_PROPERTIES_SERIALIZE_REP_CONDITION);
    let mut r2 = ByteReader::new(7i32.to_le_bytes().to_vec());
    let f2 = UField::new(&new, &mut r2).unwrap();
    assert!(f2.next.is_none());
    assert_eq!(r2.position(), 0);
}

#[test]
fn version_gating_consumes_extra_byte() {
    let mut bytes = generic_header_bytes();
    bytes.push(3);

    let below = desc_asset(
        FRAMEWORK_REMOVE_UFIELD_NEXT,
        RELEASE_PROPERTIES_SERIALIZE_REP_CONDITION - 1,
    );
    let mut r = ByteReader::new(bytes.clone());
    let g = UGenericProperty::new(&below, &mut r).unwrap();
    assert_eq!(r.position(), 21);
    assert_eq!(g.blueprint_replication_condition.unwrap(), ELifetimeCondition::CondSkipOwner);

    let at = desc_asset(FRAMEWORK_REMOVE_UFIELD_NEXT, RELEASE_PROPERTIES_SERIALIZE_REP_CONDITION);
    let mut r2 = ByteReader::new(bytes);
    let g2 = UGenericProperty::new(&at, &mut r2).unwrap();
    assert_eq!(r2.position(), 20);
    assert!(g2.blueprint_replication_condition.is_none());
    assert_eq!(g2.rep_notify_func.content, "RepFunc");
    assert_eq!(g2.array_dim, EArrayDim::TArray);
    assert_eq!(g2.property_flags.bits, 1);
}

#[test]
fn descriptor_dispatch_reads_trailing_indexes() {
    let a = desc_asset(FRAMEWORK_REMOVE_UFIELD_NEXT, RELEASE_PROPERTIES_SERIALIZE_REP_CONDITION);
    let mut bytes = generic_header_bytes();
    bytes.extend_from_slice(&11i32.to_le_bytes());
    bytes.extend_from_slice(&22i32.to_le_bytes());
    let mut r = ByteReader::new(bytes);
    let p = UProperty::new(&a, &mut r, FName::new("UEnumProperty".to_string(), 0)).unwrap();
    assert_eq!(r.position(), 28);
    match p {
        UProperty::UEnumProperty(e) => {
            assert_eq!(e.value.index, 11);
            assert_eq!(e.underlying_prop.index, 22);
        },
        _ => panic!("dispatched to the wrong descriptor"),
    }
}

#[test]
fn descriptor_unknown_name_falls_back_to_generic() {
    let a = desc_asset(FRAMEWORK_REMOVE_UFIELD_NEXT, RELEASE_PROPERTIES_SERIALIZE_REP_CONDITION);
    let bytes = generic_header_bytes();
    let mut r = ByteReader::new(bytes);
    let p = UProperty::new(&a, &mut r, FName::new("SomethingNew".to_string(), 0)).unwrap();
    assert_eq!(r.position(), 20);
    assert!(matches!(p, UProperty::UGenericProperty(_)));
}

#[test]
fn descriptor_bad_array_dim_is_invalid_enum() {
    let a = desc_asset(FRAMEWORK_REMOVE_UFIELD_NEXT, RELEASE_PROPERTIES_SERIALIZE_REP_CONDITION);
    let mut bytes = Vec::new();
    bytes.extend_from_slice(&9i32.to_le_bytes());
    bytes.extend_from_slice(&1u64.to_le_bytes());
    bytes.extend_from_slice(&1i32.to_le_bytes());
    bytes.extend_from_slice(&0i32.to_le_bytes());
    let mut r = ByteReader::new(bytes);
    assert!(matches!(
        UGenericProperty::new(&a, &mut r).unwrap_err().code,
        ErrorCode::InvalidEnumValue(_)
    ));
}

#[test]
fn bool_descriptor_reads_two_trailing_bytes() {
    let a = desc_asset(FRAMEWORK_REMOVE_UFIELD_NEXT, RELEASE_PROPERTIES_SERIALIZE_REP_CONDITION);
    let mut bytes = generic_header_bytes();
    bytes.push(1);
    bytes.push(1);
    let mut r = ByteReader::new(bytes);
    let b = UBoolProperty::new(&a, &mut r).unwrap();
    assert_eq!(r.position(), 22);
    assert_eq!(b.element_size, 1);
    assert!(b.native_bool);
}

#[test]
fn one_index_descriptor_dispatch() {
    let a = desc_asset(FRAMEWORK_REMOVE_UFIELD_NEXT, RELEASE_PROPERTIES_SERIALIZE_REP_CONDITION);
    let mut bytes = generic_header_bytes();
    bytes.extend_from_slice(&5i32.to_le_bytes());
    let mut r = ByteReader::new(bytes);
    let p = UProperty::new(&a, &mut r, FName::new("UStructProperty".to_string(), 0)).unwrap();
    assert_eq!(r.position(), 24);
    match p {
        UProperty::UStructProperty(sp) => assert_eq!(sp.struct_value.index, 5),
        _ => panic!("dispatched to the wrong descriptor"),
    }
}

#[test]
fn descriptor_truncated_is_io() {
    let a = desc_asset(FRAMEWORK_REMOVE_UFIELD_NEXT, RELEASE_PROPERTIES_SERIALIZE_REP_CONDITION);
    let mut r = ByteReader::new(vec![1, 0]);
    assert!(matches!(
        UGenericProperty::new(&a, &mut r).unwrap_err().code,
        ErrorCode::Io(_)
    ));
}

#[test]
fn bool_descriptor_any_nonzero_byte_is_true() {
    let a = desc_asset(FRAMEWORK_REMOVE_UFIELD_NEXT, RELEASE_PROPERTIES_SERIALIZE_REP_CONDITION);
    let mut bytes = generic_header_bytes();
    bytes.push(4);
    bytes.push(2);
    let mut r = ByteReader::new(bytes);
    let b = UBoolProperty::new(&a, &mut r).unwrap();
    assert_eq!(b.element_size, 4);
    assert!(b.native_bool);

    let mut bytes2 = generic_header_bytes();
    bytes2.push(1);
    bytes2.push(0);
    let mut r2 = ByteReader::new(bytes2);
    let b2 = UBoolProperty::new(&a, &mut r2).unwrap();
    assert!(!b2.native_bool);
}
