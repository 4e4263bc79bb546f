use linc::intake::{SourceDeclaration, SourceField, SourceFunction, SourceMacro, SourcePackage, SourceParameter, SourceRecord, SourceType};

#[test]
fn empty_source_package() {
    let pkg = SourcePackage::default();
    assert!(pkg.declarations.is_empty());
    assert!(pkg.macros.is_empty());
    assert!(pkg.link_requirements.is_empty());
    assert!(pkg.source_path.is_none());
}

#[test]
fn source_package_with_declarations() {
    let mut pkg = SourcePackage::default();
    pkg.declarations
        .push(SourceDeclaration::Function(SourceFunction {
            name: "malloc".into(),
            parameters: vec![SourceParameter {
                name: Some("size".into()),
                ty: SourceType::ULong,
            }],
            return_type: SourceType::Pointer(Box::new(SourceType::Void)),
            variadic: false,
            source_offset: None,
        }));
    pkg.declarations
        .push(SourceDeclaration::Record(SourceRecord {
            name: Some("point".into()),
            is_union: false,
            fields: Some(vec![
                SourceField {
                    name: Some("x".into()),
                    ty: SourceType::Int,
                    bit_width: None,
                },
                SourceField {
                    name: Some("y".into()),
                    ty: SourceType::Int,
                    bit_width: None,
                },
            ]),
            source_offset: None,
        }));
    assert_eq!(pkg.declarations.len(), 2);
}

#[test]
fn source_type_pointer_chain() {
    let ty = SourceType::Pointer(Box::new(SourceType::Pointer(Box::new(SourceType::Int))));
    match ty {
        SourceType::Pointer(inner) => match *inner {
            SourceType::Pointer(inner2) => assert_eq!(*inner2, SourceType::Int),
            _ => panic!("expected nested pointer"),
        },
        _ => panic!("expected pointer"),
    }
}

