use linc::error::LincError;
use linc::intake;
use linc::intake::{SourceDeclaration, SourceEnum, SourceFunction, SourcePackage, SourceRecord, SourceType, SourceTypeAlias, SourceVariable};
use linc::probe::{check_probe_request, ProbeConfig};

#[test]
fn typed_error_matrix_for_public_operations() {
    let probe_no_headers = check_probe_request(&ProbeConfig::new(), &["struct widget"]).unwrap_err();
    assert!(matches!(probe_no_headers, LincError::NoHeaders));

    let probe_no_types = check_probe_request(&ProbeConfig::new().header("demo.h"), &[] as &[&str]).unwrap_err();
    assert!(matches!(probe_no_types, LincError::NoProbeTypes));
}

#[test]
fn intake_roundtrip_preserves_all_declaration_types() {
    let mut src_pkg = SourcePackage::default();
    src_pkg
        .declarations
        .push(SourceDeclaration::Function(SourceFunction {
            name: "foo".into(),
            parameters: vec![],
            return_type: SourceType::Void,
            variadic: false,
            source_offset: Some(10),
        }));
    src_pkg
        .declarations
        .push(SourceDeclaration::Record(SourceRecord {
            name: Some("s".into()),
            is_union: false,
            fields: Some(vec![]),
            source_offset: Some(20),
        }));
    src_pkg
        .declarations
        .push(SourceDeclaration::Enum(SourceEnum {
            name: Some("e".into()),
            variants: vec![intake::SourceEnumVariant {
                name: "A".into(),
                value: Some(0),
            }],
            source_offset: Some(30),
        }));
    src_pkg
        .declarations
        .push(SourceDeclaration::TypeAlias(SourceTypeAlias {
            name: "myint".into(),
            target: SourceType::Int,
            source_offset: Some(40),
        }));
    src_pkg
        .declarations
        .push(SourceDeclaration::Variable(SourceVariable {
            name: "var".into(),
            ty: SourceType::Int,
            source_offset: Some(50),
        }));

    let pkg = intake::adapters::to_binding_package(&src_pkg);
    assert_eq!(pkg.function_count(), 1);
    assert_eq!(pkg.record_count(), 1);
    assert_eq!(pkg.enum_count(), 1);
    assert_eq!(pkg.type_alias_count(), 1);
    assert_eq!(pkg.variable_count(), 1);
}
