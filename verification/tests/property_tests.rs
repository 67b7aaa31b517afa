use uasset::asset::Asset;
use uasset::codec::{ByteReader, ByteWriter};
use uasset::error::ErrorCode;
use uasset::property::{
    prop_eq, write_named, IntProperty, MapProperty, MovieSceneEvalTemplatePtrProperty,
    MovieSceneSequenceInstanceDataPtrProperty, Property, RawStructProperty, StructProperty,
    UnknownProperty,
};
use uasset::types::FName;

fn names() -> Vec<String> {
    vec![
        "None".to_string(),
        "IntProperty".to_string(),
        "StrProperty".to_string(),
        "NameProperty".to_string(),
        "StructProperty".to_string(),
        "MapProperty".to_string(),
        "Foo".to_string(),
        "Mystery".to_string(),
        "Target".to_string(),
        "Other".to_string(),
        "Hello".to_string(),
        "Vector".to_string(),
        "MovieSceneSequenceInstanceDataPtrProperty".to_string(),
        "MovieSceneEvalTemplatePtrProperty".to_string(),
    ]
}

fn plain_asset() -> Asset {
    Asset {
        name_map: names(),
        custom_versions: Vec::new(),
        map_key_override: vec![("Target".to_string(), "Rotator".to_string())],
        map_value_override: vec![("Target".to_string(), "Vector".to_string())],
    }
}

fn fname_b(idx: i32, num: i32) -> Vec<u8> {
    let mut v = idx.to_le_bytes().to_vec();
    v.extend_from_slice(&num.to_le_bytes());
    v
}

fn le(v: i32) -> Vec<u8> {
    v.to_le_bytes().to_vec()
}

fn str_b(s: &str) -> Vec<u8> {
    let mut v = le(s.len() as i32 + 1);
    v.extend_from_slice(s.as_bytes());
    v.push(0);
    v
}

fn fname(content: &str, num: i32) -> FName {
    FName::new(content.to_string(), num)
}

fn write_prop(a: &Asset, p: &Property, include_header: bool) -> Vec<u8> {
    let mut w = ByteWriter::new();
    p.write(a, &mut w, include_header).unwrap();
    w.into_bytes()
}

#[test]
fn int_property_round_trip() {
    let a = plain_asset();
    let mut bytes = vec![1u8];
    bytes.extend_from_slice(&[7u8; 16]);
    bytes.extend_from_slice(&le(-42));
    let mut r = ByteReader::new(bytes.clone());
    let p = Property::from_type(&a, &mut r, &fname("IntProperty", 0), fname("Foo", 0), true, 0, 3, 0)
        .unwrap();
    assert_eq!(r.position(), bytes.len());
    match &p {
        Property::IntProperty(ip) => {
            assert_eq!(ip.value, -42);
            assert_eq!(ip.name.content, "Foo");
            assert_eq!(ip.duplication_index, 3);
            assert_eq!(ip.property_guid, Some([7u8; 16]));
        },
        _ => panic!("wrong variant"),
    }
    assert_eq!(write_prop(&a, &p, true), bytes);
}

#[test]
fn str_property_round_trip() {
    let a = plain_asset();
    let mut bytes = vec![0u8];
    bytes.extend_from_slice(&str_b("hi"));
    let mut r = ByteReader::new(bytes.clone());
    let p = Property::from_type(&a, &mut r, &fname("StrProperty", 0), fname("Foo", 0), true, 0, 0, 0)
        .unwrap();
    match &p {
        Property::StrProperty(sp) => assert_eq!(sp.value.as_deref(), Some("hi")),
        _ => panic!("wrong variant"),
    }
    assert_eq!(write_prop(&a, &p, true), bytes);
}

#[test]
fn name_property_round_trip() {
    let a = plain_asset();
    let mut bytes = vec![0u8];
    bytes.extend_from_slice(&fname_b(10, 2));
    let mut r = ByteReader::new(bytes.clone());
    let p = Property::from_type(&a, &mut r, &fname("NameProperty", 0), fname("Foo", 0), true, 0, 0, 0)
        .unwrap();
    match &p {
        Property::NameProperty(np) => {
            assert_eq!(np.value.content, "Hello");
            assert_eq!(np.value.index, 2);
        },
        _ => panic!("wrong variant"),
    }
    assert_eq!(write_prop(&a, &p, true), bytes);
}

#[test]
fn unknown_variant_fidelity() {
    let a = plain_asset();
    let mut bytes = vec![0u8];
    bytes.extend_from_slice(&[0xDE, 0xAD, 0xBE]);
    let mut r = ByteReader::new(bytes.clone());
    let p = Property::from_type(&a, &mut r, &fname("Mystery", 0), fname("Foo", 0), true, 3, 5, 0)
        .unwrap();
    match &p {
        Property::UnknownProperty(up) => {
            assert_eq!(up.serialized_type.content, "Mystery");
            assert_eq!(up.value, vec![0xDE, 0xAD, 0xBE]);
            assert_eq!(up.duplication_index, 5);
        },
        _ => panic!("wrong variant"),
    }
    assert_eq!(p.to_fname().content, "Mystery");
    assert_eq!(write_prop(&a, &p, true), bytes);
}

#[test]
fn struct_property_header_round_trip() {
    let a = plain_asset();
    let mut bytes = fname_b(11, 0);
    bytes.push(0);
    bytes.extend_from_slice(&[0xAA, 0xBB]);
    let mut r = ByteReader::new(bytes.clone());
    let sp = StructProperty::new(
        &a,
        &mut r,
        fname("Foo", 0),
        fname("", 0),
        true,
        2,
        0,
    )
    .unwrap();
    assert_eq!(sp.struct_type.content, "Vector");
    assert_eq!(sp.value, vec![0xAA, 0xBB]);
    assert_eq!(write_prop(&a, &Property::StructProperty(sp), true), bytes);
}

#[test]
fn raw_struct_round_trip_and_negative_length() {
    let a = plain_asset();
    let mut bytes = vec![0u8];
    bytes.extend_from_slice(&[1, 2, 3]);
    let mut r = ByteReader::new(bytes.clone());
    let p = RawStructProperty::new(&a, &mut r, fname("Foo", 0), true, 0, 3).unwrap();
    assert_eq!(p.value, vec![1, 2, 3]);
    assert_eq!(write_prop(&a, &Property::RawStructProperty(p), true), bytes);

    let mut r2 = ByteReader::new(vec![0u8]);
    assert!(matches!(
        RawStructProperty::new(&a, &mut r2, fname("Foo", 0), true, 0, -1)
            .unwrap_err()
            .code,
        ErrorCode::InvalidFile(_)
    ));
}

#[test]
fn movie_data_ptr_round_trip() {
    let a = plain_asset();
    let mut bytes = vec![0u8];
    bytes.extend_from_slice(&le(-9));
    let mut r = ByteReader::new(bytes.clone());
    let p = MovieSceneSequenceInstanceDataPtrProperty::new(&a, &mut r, fname("Foo", 0), true, 0)
        .unwrap();
    assert_eq!(p.value.index, -9);
    assert_eq!(
        write_prop(&a, &Property::MovieSceneSequenceInstanceDataPtrProperty(p), true),
        bytes
    );
}

fn map_stream(entries: &[(i32, &str)], removed: &[i32]) -> Vec<u8> {
    let mut b = Vec::new();
    b.extend_from_slice(&fname_b(1, 0));
    b.extend_from_slice(&fname_b(2, 0));
    b.push(0);
    b.extend_from_slice(&le(removed.len() as i32));
    for k in removed {
        b.extend_from_slice(&le(*k));
    }
    b.extend_from_slice(&le(entries.len() as i32));
    for (k, v) in entries {
        b.extend_from_slice(&le(*k));
        b.extend_from_slice(&str_b(v));
    }
    b
}

fn entry_int(p: &Property) -> i32 {
    match p {
        Property::IntProperty(ip) => ip.value,
        _ => panic!("expected an integer key"),
    }
}

fn entry_str(p: &Property) -> String {
    match p {
        Property::StrProperty(sp) => sp.value.clone().unwrap(),
        _ => panic!("expected a string value"),
    }
}

#[test]
fn map_end_to_end_round_trip() {
    let a = plain_asset();
    let bytes = map_stream(&[(1, "a"), (2, "b")], &[]);
    let mut r = ByteReader::new(bytes.clone());
    let m = MapProperty::new(&a, &mut r, fname("Foo", 0), true, 0).unwrap();
    assert_eq!(r.position(), bytes.len());
    assert_eq!(m.key_type.content, "IntProperty");
    assert_eq!(m.value_type.content, "StrProperty");
    assert!(m.keys_to_remove.is_none());
    assert_eq!(m.value.len(), 2);
    assert_eq!(entry_int(&m.value[0].0), 1);
    assert_eq!(entry_str(&m.value[0].1), "a");
    assert_eq!(entry_int(&m.value[1].0), 2);
    assert_eq!(entry_str(&m.value[1].1), "b");
    assert_eq!(write_prop(&a, &Property::MapProperty(m), true), bytes);
}

#[test]
fn map_insertion_order_is_preserved() {
    let a = plain_asset();
    let bytes = map_stream(&[(9, "x"), (1, "y"), (5, "z")], &[]);
    let mut r = ByteReader::new(bytes.clone());
    let m = MapProperty::new(&a, &mut r, fname("Foo", 0), true, 0).unwrap();
    let keys: Vec<i32> = m.value.iter().map(|e| entry_int(&e.0)).collect();
    assert_eq!(keys, vec![9, 1, 5]);
    assert_eq!(write_prop(&a, &Property::MapProperty(m), true), bytes);
}

#[test]
fn map_duplicate_key_overwrites() {
    let a = plain_asset();
    let bytes = map_stream(&[(1, "a"), (1, "b")], &[]);
    let mut r = ByteReader::new(bytes);
    let m = MapProperty::new(&a, &mut r, fname("Foo", 0), true, 0).unwrap();
    assert_eq!(m.value.len(), 1);
    assert_eq!(entry_int(&m.value[0].0), 1);
    assert_eq!(entry_str(&m.value[0].1), "b");
}

#[test]
fn map_keys_to_remove_are_all_kept() {
    let a = plain_asset();
    let bytes = map_stream(&[], &[7, 8, 9]);
    let mut r = ByteReader::new(bytes.clone());
    let m = MapProperty::new(&a, &mut r, fname("Foo", 0), true, 0).unwrap();
    let removed = m.keys_to_remove.as_ref().unwrap();
    assert_eq!(removed.len(), 3);
    assert_eq!(entry_int(&removed[0]), 7);
    assert_eq!(entry_int(&removed[1]), 8);
    assert_eq!(entry_int(&removed[2]), 9);
    assert_eq!(write_prop(&a, &Property::MapProperty(m), true), bytes);
}

#[test]
fn empty_map_round_trip() {
    let a = plain_asset();
    let bytes = map_stream(&[], &[]);
    let mut r = ByteReader::new(bytes.clone());
    let m = MapProperty::new(&a, &mut r, fname("Foo", 0), true, 0).unwrap();
    assert!(m.value.is_empty());
    assert!(m.keys_to_remove.is_none());
    assert_eq!(write_prop(&a, &Property::MapProperty(m), true), bytes);
}

#[test]
fn map_without_header_is_invalid() {
    let a = plain_asset();
    let mut r = ByteReader::new(le(0));
    assert!(matches!(
        MapProperty::new(&a, &mut r, fname("Foo", 0), false, 0)
            .unwrap_err()
            .code,
        ErrorCode::InvalidFile(_)
    ));
    assert_eq!(r.position(), 4);

    let mut r2 = ByteReader::new(vec![0, 0]);
    assert!(matches!(
        MapProperty::new(&a, &mut r2, fname("Foo", 0), false, 0)
            .unwrap_err()
            .code,
        ErrorCode::Io(_)
    ));
    assert_eq!(r2.position(), 0);
}

fn struct_map_stream(key_idx: i32) -> Vec<u8> {
    let mut b = Vec::new();
    b.extend_from_slice(&fname_b(1, 0));
    b.extend_from_slice(&fname_b(4, 0));
    b.push(0);
    b.extend_from_slice(&le(0));
    b.extend_from_slice(&le(1));
    b.extend_from_slice(&le(key_idx));
    b.push(0xAB);
    b
}

#[test]
fn struct_override_resolution() {
    let a = plain_asset();
    let bytes = struct_map_stream(5);
    let mut r = ByteReader::new(bytes.clone());
    let m = MapProperty::new(&a, &mut r, fname("Target", 0), true, 0).unwrap();
    match &m.value[0].1 {
        Property::StructProperty(sp) => {
            assert_eq!(sp.struct_type.content, "Vector");
            assert_eq!(sp.value, vec![0xAB]);
        },
        _ => panic!("expected a struct value"),
    }
    assert_eq!(write_prop(&a, &Property::MapProperty(m), true), bytes);
}

#[test]
fn struct_override_absent_falls_back_to_generic() {
    let a = plain_asset();
    let bytes = struct_map_stream(5);
    let mut r = ByteReader::new(bytes);
    let m = MapProperty::new(&a, &mut r, fname("Other", 0), true, 0).unwrap();
    match &m.value[0].1 {
        Property::StructProperty(sp) => assert_eq!(sp.struct_type.content, "Generic"),
        _ => panic!("expected a struct value"),
    }
}

fn named_int_bytes(value: i32) -> Vec<u8> {
    let mut b = fname_b(6, 0);
    b.extend_from_slice(&fname_b(1, 0));
    b.extend_from_slice(&le(4));
    b.extend_from_slice(&le(0));
    b.push(0);
    b.extend_from_slice(&le(value));
    b
}

#[test]
fn named_property_round_trip() {
    let a = plain_asset();
    let bytes = named_int_bytes(9);
    let mut r = ByteReader::new(bytes.clone());
    let p = Property::new(&a, &mut r).unwrap().unwrap();
    assert_eq!(p.get_name().content, "Foo");
    assert_eq!(p.get_duplication_index(), 0);
    let mut w = ByteWriter::new();
    let n = write_named(&a, &mut w, &p).unwrap();
    assert_eq!(n, 4);
    assert_eq!(w.into_bytes(), bytes);
}

#[test]
fn named_list_sentinel_returns_none() {
    let a = plain_asset();
    let mut r = ByteReader::new(fname_b(0, 0));
    assert!(Property::new(&a, &mut r).unwrap().is_none());
}

#[test]
fn named_property_length_mismatch_is_invalid() {
    let a = plain_asset();
    let mut b = fname_b(6, 0);
    b.extend_from_slice(&fname_b(1, 0));
    b.extend_from_slice(&le(5));
    b.extend_from_slice(&le(0));
    b.push(0);
    b.extend_from_slice(&le(9));
    let mut r = ByteReader::new(b);
    assert!(matches!(
        Property::new(&a, &mut r).unwrap_err().code,
        ErrorCode::InvalidFile(_)
    ));
}

#[test]
fn movie_eval_template_round_trip() {
    let a = plain_asset();
    let mut bytes = vec![0u8];
    bytes.extend_from_slice(&str_b("Tm"));
    bytes.extend_from_slice(&named_int_bytes(9));
    bytes.extend_from_slice(&fname_b(0, 0));
    let mut r = ByteReader::new(bytes.clone());
    let p = MovieSceneEvalTemplatePtrProperty::new(&a, &mut r, fname("Foo", 0), true, 0).unwrap();
    assert_eq!(p.template_type.as_deref(), Some("Tm"));
    assert_eq!(p.value.len(), 1);
    assert_eq!(
        write_prop(&a, &Property::MovieSceneEvalTemplatePtrProperty(p), true),
        bytes
    );
}

#[test]
fn movie_eval_without_template_reads_no_list() {
    let a = plain_asset();
    let mut bytes = vec![0u8];
    bytes.extend_from_slice(&le(0));
    let mut r = ByteReader::new(bytes.clone());
    let p = MovieSceneEvalTemplatePtrProperty::new(&a, &mut r, fname("Foo", 0), true, 0).unwrap();
    assert!(p.template_type.is_none());
    assert!(p.value.is_empty());
    assert_eq!(
        write_prop(&a, &Property::MovieSceneEvalTemplatePtrProperty(p), true),
        bytes
    );
}

#[test]
fn property_equality_is_structural() {
    let mk = |v: i32, dup: i32| {
        Property::IntProperty(IntProperty {
            name: fname("Foo", 0),
            property_guid: None,
            duplication_index: dup,
            value: v,
        })
    };
    assert!(prop_eq(&mk(1, 0), &mk(1, 0)));
    assert!(!prop_eq(&mk(1, 0), &mk(2, 0)));
    assert!(!prop_eq(&mk(1, 0), &mk(1, 3)));
    let u = Property::UnknownProperty(UnknownProperty {
        name: fname("Foo", 0),
        property_guid: None,
        duplication_index: 0,
        value: vec![1],
        serialized_type: fname("Mystery", 0),
    });
    assert!(!prop_eq(&mk(1, 0), &u));
    assert!(prop_eq(&u, &u));
}

#[test]
fn map_with_removed_keys_and_entries() {
    let a = plain_asset();
    let bytes = map_stream(&[(3, "c")], &[1, 2]);
    let mut r = ByteReader::new(bytes.clone());
    let m = MapProperty::new(&a, &mut r, fname("Foo", 0), true, 0).unwrap();
    assert_eq!(m.keys_to_remove.as_ref().unwrap().len(), 2);
    assert_eq!(m.value.len(), 1);
    assert_eq!(write_prop(&a, &Property::MapProperty(m), true), bytes);
}

#[test]
fn from_type_dispatches_map() {
    let a = plain_asset();
    let bytes = map_stream(&[(1, "a")], &[]);
    let mut r = ByteReader::new(bytes.clone());
    let p = Property::from_type(&a, &mut r, &fname("MapProperty", 0), fname("Foo", 0), true, 0, 0, 0)
        .unwrap();
    assert!(matches!(p, Property::MapProperty(_)));
    assert_eq!(write_prop(&a, &p, true), bytes);
}

#[test]
fn movie_eval_via_dispatch() {
    let a = plain_asset();
    let mut bytes = vec![0u8];
    bytes.extend_from_slice(&le(0));
    let mut r = ByteReader::new(bytes.clone());
    let p = Property::from_type(
        &a,
        &mut r,
        &fname("MovieSceneEvalTemplatePtrProperty", 0),
        fname("Foo", 0),
        true,
        0,
        0,
        0,
    )
    .unwrap();
    assert!(matches!(p, Property::MovieSceneEvalTemplatePtrProperty(_)));
    assert_eq!(write_prop(&a, &p, true), bytes);
}

#[test]
fn struct_override_uses_key_table_for_keys() {
    let a = plain_asset();
    let mut b = Vec::new();
    b.extend_from_slice(&fname_b(4, 0));
    b.extend_from_slice(&fname_b(2, 0));
    b.push(0);
    b.extend_from_slice(&le(0));
    b.extend_from_slice(&le(1));
    b.push(0xCD);
    b.extend_from_slice(&str_b("v"));
    let mut r = ByteReader::new(b.clone());
    let m = MapProperty::new(&a, &mut r, fname("Target", 0), true, 0).unwrap();
    match &m.value[0].0 {
        Property::StructProperty(sp) => {
            assert_eq!(sp.struct_type.content, "Rotator");
            assert_eq!(sp.value, vec![0xCD]);
        },
        _ => panic!("expected a struct key"),
    }
    assert_eq!(write_prop(&a, &Property::MapProperty(m), true), b);
}

#[test]
fn movie_eval_template_with_immediate_sentinel() {
    let a = plain_asset();
    let mut bytes = vec![0u8];
    bytes.extend_from_slice(&str_b("Tm"));
    bytes.extend_from_slice(&fname_b(0, 0));
    let mut r = ByteReader::new(bytes.clone());
    let p = MovieSceneEvalTemplatePtrProperty::new(&a, &mut r, fname("Foo", 0), true, 0).unwrap();
    assert_eq!(p.template_type.as_deref(), Some("Tm"));
    assert!(p.value.is_empty());
    assert_eq!(
        write_prop(&a, &Property::MovieSceneEvalTemplatePtrProperty(p), true),
        bytes
    );
}

#[test]
fn int_to_int_map_round_trip() {
    let a = plain_asset();
    let mut b = Vec::new();
    b.extend_from_slice(&fname_b(1, 0));
    b.extend_from_slice(&fname_b(1, 0));
    b.push(0);
    b.extend_from_slice(&le(1));
    b.extend_from_slice(&le(44));
    b.extend_from_slice(&le(2));
    b.extend_from_slice(&le(10));
    b.extend_from_slice(&le(100));
    b.extend_from_slice(&le(20));
    b.extend_from_slice(&le(200));
    let mut r = ByteReader::new(b.clone());
    let m = MapProperty::new(&a, &mut r, fname("Foo", 0), true, 0).unwrap();
    assert_eq!(entry_int(&m.keys_to_remove.as_ref().unwrap()[0]), 44);
    assert_eq!(entry_int(&m.value[0].0), 10);
    assert_eq!(entry_int(&m.value[0].1), 100);
    assert_eq!(entry_int(&m.value[1].0), 20);
    assert_eq!(entry_int(&m.value[1].1), 200);
    assert_eq!(write_prop(&a, &Property::MapProperty(m), true), b);
}
