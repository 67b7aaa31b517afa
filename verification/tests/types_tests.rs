use uasset::error::{Error, ErrorCode, KismetError};
use uasset::types::{fname_eq, FName, GenerationInfo, NamespacedString, PackageIndex, StringTable};

#[test]
fn package_index_sign_validation() {
    assert!(matches!(
        PackageIndex::from_import(-1).unwrap_err().code,
        ErrorCode::InvalidPackageIndex(_)
    ));
    assert!(matches!(
        PackageIndex::from_export(-1).unwrap_err().code,
        ErrorCode::InvalidPackageIndex(_)
    ));
    assert_eq!(PackageIndex::from_import(0).unwrap().index, -1);
    assert_eq!(PackageIndex::from_export(0).unwrap().index, 1);
    assert_eq!(PackageIndex::from_import(4).unwrap().index, -5);
    assert_eq!(PackageIndex::from_export(4).unwrap().index, 5);
    assert_eq!(PackageIndex::new(-17).index, -17);
}

#[test]
fn fname_structural_equality() {
    let a = FName::new("Alpha".to_string(), 2);
    let b = FName::new("Alpha".to_string(), 2);
    let c = FName::new("Alpha".to_string(), 3);
    let d = FName::new("Beta".to_string(), 2);
    assert!(fname_eq(&a, &b));
    assert!(!fname_eq(&a, &c));
    assert!(!fname_eq(&a, &d));
}

#[test]
fn small_constructors() {
    let n = NamespacedString::new("ns".to_string(), "val".to_string());
    assert_eq!(n.namespace, "ns");
    assert_eq!(n.value, "val");
    let t = StringTable::new("game".to_string());
    assert_eq!(t.namespace, "game");
    assert!(t.value.is_empty());
    let g = GenerationInfo { export_count: 3, name_count: 9 };
    assert_eq!(g.export_count, 3);
    assert_eq!(g.name_count, 9);
}

#[test]
fn error_constructors_keep_kind_and_message() {
    assert!(matches!(
        Error::invalid_file("bad".to_string()).code,
        ErrorCode::InvalidFile(m) if m == "bad"
    ));
    assert!(matches!(
        Error::invalid_package_index("sign".to_string()).code,
        ErrorCode::InvalidPackageIndex(m) if m == "sign"
    ));
    assert!(matches!(
        Error::unimplemented("todo".to_string()).code,
        ErrorCode::Unimplemented(m) if m == "todo"
    ));
    assert!(matches!(
        Error::io("eof".to_string()).code,
        ErrorCode::Io(m) if m == "eof"
    ));
    assert!(matches!(
        Error::invalid_enum_value("code".to_string()).code,
        ErrorCode::InvalidEnumValue(m) if m == "code"
    ));
}

#[test]
fn kismet_error_constructors() {
    assert!(matches!(
        KismetError::token("tok".to_string()),
        KismetError::InvalidToken(m) if m == "tok"
    ));
    assert!(matches!(
        KismetError::expression("expr".to_string()),
        KismetError::UnknownExpression(m) if m == "expr"
    ));
    assert!(matches!(
        Error::kismet(KismetError::token("t".to_string())).code,
        ErrorCode::Kismet(KismetError::InvalidToken(_))
    ));
}

#[test]
fn error_message_method() {
    assert_eq!(Error::invalid_file("bad header".to_string()).message(), "bad header");
    assert_eq!(
        Error::kismet(KismetError::expression("what".to_string())).message(),
        "what"
    );
    assert_eq!(KismetError::token("t".to_string()).message(), "t");
}
