use linc::intake::adapters::{binding_type_to_source, from_binding_package, source_type_to_binding, to_binding_package};
use linc::intake::SourceLinkKind;
use linc::ir;

#[test]
fn roundtrip_binding_to_source_to_binding() {
    let mut pkg = ir::BindingPackage::new();
    pkg.source_path = Some("test.h".into());
    pkg.items
        .push(ir::BindingItem::Function(ir::FunctionBinding {
            name: "foo".into(),
            calling_convention: ir::CallingConvention::C,
            parameters: vec![ir::ParameterBinding {
                name: Some("x".into()),
                ty: ir::BindingType::Int,
            }],
            return_type: ir::BindingType::Void,
            variadic: false,
            source_offset: Some(10),
        }));
    pkg.items.push(ir::BindingItem::Record(ir::RecordBinding {
        kind: ir::RecordKind::Struct,
        name: Some("point".into()),
        fields: Some(vec![ir::FieldBinding {
            name: Some("x".into()),
            ty: ir::BindingType::Int,
            bit_width: None,
            layout: None,
        }]),
        representation: None,
        abi_confidence: None,
        source_offset: Some(20),
    }));
    pkg.items.push(ir::BindingItem::Enum(ir::EnumBinding {
        name: Some("color".into()),
        variants: vec![ir::EnumVariant {
            name: "RED".into(),
            value: Some(0),
        }],
        representation: None,
        abi_confidence: None,
        source_offset: Some(30),
    }));
    pkg.items
        .push(ir::BindingItem::TypeAlias(ir::TypeAliasBinding {
            name: "myint".into(),
            target: ir::BindingType::Int,
            canonical_resolution: None,
            abi_confidence: None,
            source_offset: Some(40),
        }));
    pkg.items
        .push(ir::BindingItem::Variable(ir::VariableBinding {
            name: "errno".into(),
            ty: ir::BindingType::Int,
            source_offset: Some(50),
        }));

    let source = from_binding_package(&pkg);
    assert_eq!(source.declarations.len(), 5);
    assert_eq!(source.source_path.as_deref(), Some("test.h"));

    let back = to_binding_package(&source);
    assert_eq!(back.items.len(), 5);
    assert_eq!(back.source_path.as_deref(), Some("test.h"));

    // Verify each item type survived
    assert_eq!(back.function_count(), 1);
    assert_eq!(back.record_count(), 1);
    assert_eq!(back.enum_count(), 1);
    assert_eq!(back.type_alias_count(), 1);
    assert_eq!(back.variable_count(), 1);
}

#[test]
fn adapter_preserves_macros_and_link_requirements() {
    let mut pkg = ir::BindingPackage::new();
    pkg.macros.push(ir::MacroBinding {
        name: "VERSION".into(),
        body: "3".into(),
        function_like: false,
        form: ir::MacroForm::ObjectLike,
        kind: ir::MacroKind::Integer,
        category: ir::MacroCategory::BindableConstant,
        value: Some(ir::MacroValue::Integer(3)),
    });
    pkg.link.libraries.push(ir::LinkLibrary {
        name: "z".into(),
        kind: ir::LinkLibraryKind::Dynamic,
        source: ir::LinkRequirementSource::Declared,
    });

    let source = from_binding_package(&pkg);
    assert_eq!(source.macros.len(), 1);
    assert_eq!(source.macros[0].name, "VERSION");
    assert_eq!(source.link_requirements.len(), 1);
    assert_eq!(source.link_requirements[0].name, "z");
    assert_eq!(
        source.link_requirements[0].kind,
        SourceLinkKind::DynamicLibrary
    );
}

#[test]
fn adapter_skips_unsupported_items() {
    let mut pkg = ir::BindingPackage::new();
    pkg.items
        .push(ir::BindingItem::Unsupported(ir::UnsupportedItem {
            name: Some("flags".into()),
            reason: "bitfield".into(),
            source_offset: None,
        }));
    pkg.items
        .push(ir::BindingItem::Function(ir::FunctionBinding {
            name: "foo".into(),
            calling_convention: ir::CallingConvention::C,
            parameters: vec![],
            return_type: ir::BindingType::Void,
            variadic: false,
            source_offset: None,
        }));

    let source = from_binding_package(&pkg);
    assert_eq!(source.declarations.len(), 1);
}

#[test]
fn type_conversion_complex_types() {
    let ty = ir::BindingType::FunctionPointer {
        return_type: Box::new(ir::BindingType::Int),
        parameters: vec![
            ir::BindingType::const_ptr(ir::BindingType::Char),
            ir::BindingType::ptr(ir::BindingType::Void),
        ],
        variadic: true,
    };
    let source_ty = binding_type_to_source(&ty);
    let back = source_type_to_binding(&source_ty);

    match back {
        ir::BindingType::FunctionPointer {
            return_type,
            parameters,
            variadic,
        } => {
            assert_eq!(*return_type, ir::BindingType::Int);
            assert_eq!(parameters.len(), 2);
            assert!(variadic);
        }
        _ => panic!("expected FunctionPointer"),
    }
}

#[test]
fn source_types_survive_the_round_trip_through_the_ir() {
    let ty = linc::SourceType::FunctionPointer {
        return_type: Box::new(linc::SourceType::Const(Box::new(linc::SourceType::TypedefRef("size_t".into())))),
        parameters: vec![
            linc::SourceType::ConstPointer(Box::new(linc::SourceType::Char)),
            linc::SourceType::Volatile(Box::new(linc::SourceType::Pointer(Box::new(linc::SourceType::Void)))),
            linc::SourceType::Array(Box::new(linc::SourceType::UShort), Some(8)),
            linc::SourceType::Opaque("_Complex".into()),
        ],
        variadic: false,
    };
    let back = binding_type_to_source(&source_type_to_binding(&ty));
    assert_eq!(back, ty);
}
