#![allow(unused_imports)]
use linc::codegen_rust::emit_rust_ffi;
use linc::ir;

#[test]
fn emit_anonymous_field_bindgen_name() {
    // A struct with an anonymous inner struct produces unnamed fields
    let pkg = ir::BindingPackage {
        source_path: None,
        items: vec![ir::BindingItem::Record(ir::RecordBinding {
            kind: ir::RecordKind::Struct,
            name: Some("s".into()),
            fields: Some(vec![
                ir::FieldBinding {
                    name: None,
                    ty: ir::BindingType::Int,
                    bit_width: None,
                    layout: None,
                },
                ir::FieldBinding {
                    name: Some("x".into()),
                    ty: ir::BindingType::Int,
                    bit_width: None,
                    layout: None,
                },
            ]),
            representation: None,
            abi_confidence: None,
            source_offset: None,
        })],
        diagnostics: Vec::new(),
        ..ir::BindingPackage::new()
    };
    let out = emit_rust_ffi(&pkg);
    assert!(out.contains("__bindgen_anon_0"));
    assert!(out.contains("pub x:"));
}

#[test]
fn emit_unsized_array_as_flexible_member() {
    let pkg = ir::BindingPackage {
        source_path: None,
        items: vec![ir::BindingItem::Record(ir::RecordBinding {
            kind: ir::RecordKind::Struct,
            name: Some("buf".into()),
            fields: Some(vec![
                ir::FieldBinding {
                    name: Some("len".into()),
                    ty: ir::BindingType::Int,
                    bit_width: None,
                    layout: None,
                },
                ir::FieldBinding {
                    name: Some("data".into()),
                    ty: ir::BindingType::Array(
                        Box::new(ir::BindingType::UChar),
                        None,
                    ),
                    bit_width: None,
                    layout: None,
                },
            ]),
            representation: None,
            abi_confidence: None,
            source_offset: None,
        })],
        diagnostics: Vec::new(),
        ..ir::BindingPackage::new()
    };
    let out = emit_rust_ffi(&pkg);
    assert!(out.contains("flexible array"));
}

#[test]
fn emit_opaque_type_valid_rust() {
    let pkg = ir::BindingPackage {
        source_path: None,
        items: vec![ir::BindingItem::Function(ir::FunctionBinding {
            name: "get".into(),
            calling_convention: ir::CallingConvention::C,
            parameters: Vec::new(),
            return_type: ir::BindingType::Opaque("_Complex".into()),
            variadic: false,
            source_offset: None,
        })],
        diagnostics: Vec::new(),
        ..ir::BindingPackage::new()
    };
    let out = emit_rust_ffi(&pkg);
    assert!(out.contains("opaque: _Complex"));
    assert!(out.contains("()"));
}

