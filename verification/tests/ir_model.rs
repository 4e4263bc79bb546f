#![allow(unused_imports)]
use linc::ir::{
    BindingItem, BindingPackage, BindingType, CallingConvention, EnumBinding, EnumVariant,
    FieldBinding, FunctionBinding, ParameterBinding, RecordBinding, RecordKind, TypeAliasBinding,
};
#[test]
fn ir_binding_package_default_is_empty() {
    let pkg = BindingPackage::new();
    assert!(pkg.items.is_empty());
    assert!(pkg.diagnostics.is_empty());
    assert!(pkg.source_path.is_none());
}

#[test]
fn ir_binding_type_pointer_nesting() {
    let ty = BindingType::ptr(BindingType::ptr(BindingType::Char));
    match &ty {
        BindingType::Pointer { pointee: inner, .. } => match inner.as_ref() {
            BindingType::Pointer { pointee: inner2, .. } => {
                assert_eq!(*inner2.as_ref(), BindingType::Char)
            }
            _ => panic!("expected pointer"),
        },
        _ => panic!("expected pointer"),
    }
}

#[test]
fn ir_opaque_record() {
    let rec = RecordBinding {
        kind: RecordKind::Struct,
        name: Some("FILE".into()),
        fields: None,
        representation: None,
        abi_confidence: None,
        source_offset: None,
    };
    assert!(rec.is_opaque());
}

#[test]
fn ir_record_with_fields() {
    let rec = RecordBinding {
        kind: RecordKind::Struct,
        name: Some("point".into()),
        fields: Some(vec![
            FieldBinding { name: Some("x".into()), ty: BindingType::Int, bit_width: None, layout: None },
            FieldBinding { name: Some("y".into()), ty: BindingType::Int, bit_width: None, layout: None },
        ]),
        representation: None,
        abi_confidence: None,
        source_offset: None,
    };
    assert!(!rec.is_opaque());
    assert_eq!(rec.fields.as_ref().unwrap().len(), 2);
}

#[test]
fn ir_function_binding_construction() {
    let func = FunctionBinding {
        name: "printf".into(),
        calling_convention: CallingConvention::C,
        parameters: vec![
            ParameterBinding {
                name: Some("fmt".into()),
                ty: BindingType::ptr(BindingType::Char),
            },
        ],
        return_type: BindingType::Int,
        variadic: true,
        source_offset: None,
    };
    assert_eq!(func.name, "printf");
    assert!(func.variadic);
}

#[test]
fn ir_enum_binding_construction() {
    let e = EnumBinding {
        name: Some("color".into()),
        variants: vec![
            EnumVariant { name: "RED".into(), value: Some(0) },
            EnumVariant { name: "GREEN".into(), value: Some(1) },
            EnumVariant { name: "BLUE".into(), value: Some(2) },
        ],
        representation: None,
        abi_confidence: None,
        source_offset: None,
    };
    assert_eq!(e.variants.len(), 3);
    assert_eq!(e.variants[0].value, Some(0));
}

#[test]
fn ir_function_pointer_type() {
    let ty = BindingType::FunctionPointer {
        return_type: Box::new(BindingType::Void),
        parameters: vec![BindingType::Int, BindingType::ptr(BindingType::Void)],
        variadic: false,
    };
    match &ty {
        BindingType::FunctionPointer { parameters, variadic, .. } => {
            assert_eq!(parameters.len(), 2);
            assert!(!variadic);
        }
        _ => panic!("expected function pointer"),
    }
}

#[test]
fn ir_const_pointer_vs_mut_pointer() {
    let const_ptr = BindingType::const_ptr(BindingType::Char);
    let mut_ptr = BindingType::ptr(BindingType::Char);
    assert_ne!(const_ptr, mut_ptr);

    match &const_ptr {
        BindingType::Pointer { const_pointee, .. } => assert!(const_pointee),
        _ => panic!("expected pointer"),
    }
    match &mut_ptr {
        BindingType::Pointer { const_pointee, .. } => assert!(!const_pointee),
        _ => panic!("expected pointer"),
    }
}
