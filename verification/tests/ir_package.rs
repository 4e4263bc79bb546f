#![allow(unused_imports)]
use linc::diagnostics::{Diagnostic, DiagnosticKind};
use linc::ir::{
    BindingInputs, BindingItem, BindingItemKind, BindingLinkSurface, BindingPackage, BindingTarget,
    BindingType, CallingConvention, DeclarationProvenance, EnumBinding, EnumVariant, FieldBinding,
    FunctionBinding, MacroBinding, MacroCategory, MacroForm, MacroKind, MacroValue,
    ParameterBinding, RecordBinding, RecordKind, TypeAliasBinding, TypeLayout, UnsupportedItem,
    VariableBinding,
};
use linc::line_markers::{SourceLocation, SourceOrigin};
#[test]
fn mod_binding_package_default_is_empty() {
    let pkg = BindingPackage::new();
    assert!(pkg.is_empty());
    assert_eq!(pkg.item_count(), 0);
    assert!(!pkg.has_diagnostics());
    assert!(pkg.source_path.is_none());
    assert_eq!(pkg.target, BindingTarget::default());
    assert_eq!(pkg.inputs, BindingInputs::default());
    assert!(pkg.macros.is_empty());
    assert!(pkg.layouts.is_empty());
    assert_eq!(pkg.link, BindingLinkSurface::default());
    assert!(pkg.provenance.is_empty());
    assert!(pkg.macro_provenance.is_empty());
    assert!(pkg.effective_macro_environment.is_empty());
}

#[test]
fn binding_package_query_helpers_report_counts() {
    let mut pkg = BindingPackage::new();
    pkg.macros.push(MacroBinding {
        name: "API_LEVEL".into(),
        body: "7".into(),
        function_like: false,
        form: MacroForm::ObjectLike,
        kind: MacroKind::Integer,
        category: MacroCategory::BindableConstant,
        value: Some(MacroValue::Integer(7)),
    });
    pkg.layouts.push(TypeLayout {
        name: "size_t".into(),
        size: 8,
        align: 8,
    });
    pkg.diagnostics.push(Diagnostic {
        kind: DiagnosticKind::DeclarationUnsupported,
        severity: linc::Severity::Warning,
        message: "unsupported".into(),
        location: None,
        item_name: Some("flags".into()),
        artifact_path: None,
    });
    pkg.items.push(BindingItem::Function(FunctionBinding {
        name: "malloc".into(),
        calling_convention: CallingConvention::C,
        parameters: vec![ParameterBinding {
            name: Some("size".into()),
            ty: BindingType::ULong,
        }],
        return_type: BindingType::ptr(BindingType::Void),
        variadic: false,
        source_offset: Some(1),
    }));
    pkg.items.push(BindingItem::Record(RecordBinding {
        kind: RecordKind::Struct,
        name: Some("point".into()),
        fields: Some(vec![FieldBinding {
            name: Some("x".into()),
            ty: BindingType::Int,
            bit_width: None,
            layout: None,
        }]),
        representation: None,
        abi_confidence: None,
        source_offset: Some(2),
    }));
    pkg.items.push(BindingItem::Enum(EnumBinding {
        name: Some("mode".into()),
        variants: vec![EnumVariant {
            name: "MODE_A".into(),
            value: Some(0),
        }],
        representation: None,
        abi_confidence: None,
        source_offset: Some(3),
    }));
    pkg.items.push(BindingItem::TypeAlias(TypeAliasBinding {
        name: "size_t".into(),
        target: BindingType::ULong,
        canonical_resolution: None,
        abi_confidence: None,
        source_offset: Some(4),
    }));
    pkg.items.push(BindingItem::Variable(VariableBinding {
        name: "errno".into(),
        ty: BindingType::Int,
        source_offset: Some(5),
    }));
    pkg.items.push(BindingItem::Unsupported(UnsupportedItem {
        name: Some("flags".into()),
        reason: "bitfield".into(),
        source_offset: Some(6),
    }));

    assert!(!pkg.is_empty());
    assert!(pkg.has_diagnostics());
    assert_eq!(pkg.item_count(), 6);
    assert_eq!(pkg.function_count(), 1);
    assert_eq!(pkg.record_count(), 1);
    assert_eq!(pkg.enum_count(), 1);
    assert_eq!(pkg.type_alias_count(), 1);
    assert_eq!(pkg.variable_count(), 1);
    assert_eq!(pkg.unsupported_count(), 1);
}

#[test]
fn binding_package_typed_iterators_filter_by_kind() {
    let mut pkg = BindingPackage::new();
    pkg.items.push(BindingItem::Function(FunctionBinding {
        name: "malloc".into(),
        calling_convention: CallingConvention::C,
        parameters: Vec::new(),
        return_type: BindingType::ptr(BindingType::Void),
        variadic: false,
        source_offset: Some(1),
    }));
    pkg.items.push(BindingItem::Record(RecordBinding {
        kind: RecordKind::Struct,
        name: Some("point".into()),
        fields: None,
        representation: None,
        abi_confidence: None,
        source_offset: Some(2),
    }));
    pkg.items.push(BindingItem::Enum(EnumBinding {
        name: Some("mode".into()),
        variants: vec![EnumVariant {
            name: "MODE_A".into(),
            value: Some(0),
        }],
        representation: None,
        abi_confidence: None,
        source_offset: Some(3),
    }));
    pkg.items.push(BindingItem::TypeAlias(TypeAliasBinding {
        name: "size_t".into(),
        target: BindingType::ULong,
        canonical_resolution: None,
        abi_confidence: None,
        source_offset: Some(4),
    }));
    pkg.items.push(BindingItem::Variable(VariableBinding {
        name: "errno".into(),
        ty: BindingType::Int,
        source_offset: Some(5),
    }));
    pkg.items.push(BindingItem::Unsupported(UnsupportedItem {
        name: Some("flags".into()),
        reason: "bitfield".into(),
        source_offset: Some(6),
    }));

    assert_eq!(
        pkg.functions()
            .iter()
            .map(|item| item.name.as_str())
            .collect::<Vec<_>>(),
        vec!["malloc"]
    );
    assert_eq!(
        pkg.records()
            .iter()
            .map(|item| item.name.as_deref())
            .collect::<Vec<_>>(),
        vec![Some("point")]
    );
    assert_eq!(
        pkg.enums()
            .iter()
            .map(|item| item.name.as_deref())
            .collect::<Vec<_>>(),
        vec![Some("mode")]
    );
    assert_eq!(
        pkg.type_aliases()
            .iter()
            .map(|item| item.name.as_str())
            .collect::<Vec<_>>(),
        vec!["size_t"]
    );
    assert_eq!(
        pkg.variables()
            .iter()
            .map(|item| item.name.as_str())
            .collect::<Vec<_>>(),
        vec!["errno"]
    );
    assert_eq!(
        pkg.unsupported_items()
            .iter()
            .map(|item| item.reason.as_str())
            .collect::<Vec<_>>(),
        vec!["bitfield"]
    );
}

#[test]
fn binding_package_item_provenance_helper_returns_entry() {
    let mut pkg = BindingPackage::new();
    pkg.provenance.push(DeclarationProvenance {
        item_name: Some("demo".into()),
        item_kind: Some(BindingItemKind::Function),
        source_offset: Some(12),
        source_origin: Some(SourceOrigin::Entry),
        source_location: Some(SourceLocation {
            file: "demo.h".into(),
            line: Some(3),
            column: Some(5),
        }),
    });

    let prov = pkg.item_provenance(0).unwrap();
    assert_eq!(prov.item_name.as_deref(), Some("demo"));
    assert_eq!(prov.item_kind, Some(BindingItemKind::Function));
    assert_eq!(prov.source_offset, Some(12));
    assert_eq!(prov.source_origin, Some(SourceOrigin::Entry));
    assert_eq!(prov.source_location.as_ref().unwrap().file, "demo.h");
}

#[test]
fn binding_package_lookup_helpers_find_named_items() {
    let mut pkg = BindingPackage::new();
    pkg.items.push(BindingItem::Function(FunctionBinding {
        name: "malloc".into(),
        calling_convention: CallingConvention::C,
        parameters: Vec::new(),
        return_type: BindingType::ptr(BindingType::Void),
        variadic: false,
        source_offset: Some(1),
    }));
    pkg.items.push(BindingItem::Record(RecordBinding {
        kind: RecordKind::Struct,
        name: Some("point".into()),
        fields: None,
        representation: None,
        abi_confidence: None,
        source_offset: Some(2),
    }));
    pkg.items.push(BindingItem::Enum(EnumBinding {
        name: Some("mode".into()),
        variants: vec![EnumVariant {
            name: "MODE_A".into(),
            value: Some(0),
        }],
        representation: None,
        abi_confidence: None,
        source_offset: Some(3),
    }));
    pkg.items.push(BindingItem::TypeAlias(TypeAliasBinding {
        name: "size_t".into(),
        target: BindingType::ULong,
        canonical_resolution: None,
        abi_confidence: None,
        source_offset: Some(4),
    }));
    pkg.items.push(BindingItem::Variable(VariableBinding {
        name: "errno".into(),
        ty: BindingType::Int,
        source_offset: Some(5),
    }));
    pkg.items.push(BindingItem::Unsupported(UnsupportedItem {
        name: Some("flags".into()),
        reason: "bitfield".into(),
        source_offset: Some(6),
    }));

    assert_eq!(
        pkg.find_function("malloc").map(|item| item.name.as_str()),
        Some("malloc")
    );
    assert_eq!(
        pkg.find_record("point")
            .and_then(|item| item.name.as_deref()),
        Some("point")
    );
    assert_eq!(
        pkg.find_enum("mode").and_then(|item| item.name.as_deref()),
        Some("mode")
    );
    assert_eq!(
        pkg.find_type_alias("size_t").map(|item| item.name.as_str()),
        Some("size_t")
    );
    assert_eq!(
        pkg.find_variable("errno").map(|item| item.name.as_str()),
        Some("errno")
    );
    assert_eq!(
        pkg.find_unsupported("flags")
            .and_then(|item| item.name.as_deref()),
        Some("flags")
    );

    assert!(pkg.find_function("calloc").is_none());
    assert!(pkg.find_record("vector").is_none());
    assert!(pkg.find_enum("MODE_B").is_none());
    assert!(pkg.find_type_alias("ssize_t").is_none());
    assert!(pkg.find_variable("stdin").is_none());
    assert!(pkg.find_unsupported("padding").is_none());
}

#[test]
fn mod_binding_type_pointer_nesting() {
    let ty = BindingType::ptr(BindingType::ptr(BindingType::Char));
    match &ty {
        BindingType::Pointer { pointee: inner, .. } => match inner.as_ref() {
            BindingType::Pointer {
                pointee: inner2, ..
            } => {
                assert_eq!(*inner2.as_ref(), BindingType::Char)
            }
            _ => panic!("expected pointer"),
        },
        _ => panic!("expected pointer"),
    }
}

#[test]
fn mod_opaque_record() {
    let rec = RecordBinding {
        kind: RecordKind::Struct,
        name: Some("FILE".into()),
        fields: None,
        representation: None,
        abi_confidence: None,
        source_offset: None,
    };
    assert!(rec.is_opaque());
}

#[test]
fn mod_record_with_fields() {
    let rec = RecordBinding {
        kind: RecordKind::Struct,
        name: Some("point".into()),
        fields: Some(vec![
            FieldBinding {
                name: Some("x".into()),
                ty: BindingType::Int,
                bit_width: None,
                layout: None,
            },
            FieldBinding {
                name: Some("y".into()),
                ty: BindingType::Int,
                bit_width: None,
                layout: None,
            },
        ]),
        representation: None,
        abi_confidence: None,
        source_offset: None,
    };
    assert!(!rec.is_opaque());
    assert_eq!(rec.fields.as_ref().unwrap().len(), 2);
}

#[test]
fn field_binding_tracks_partial_bitfield_metadata() {
    let field = FieldBinding {
        name: Some("flags".into()),
        ty: BindingType::UInt,
        bit_width: Some(3),
        layout: None,
    };
    assert!(field.is_bitfield());
}

#[test]
fn mod_function_binding_construction() {
    let func = FunctionBinding {
        name: "printf".into(),
        calling_convention: CallingConvention::C,
        parameters: vec![ParameterBinding {
            name: Some("fmt".into()),
            ty: BindingType::ptr(BindingType::Char),
        }],
        return_type: BindingType::Int,
        variadic: true,
        source_offset: None,
    };
    assert_eq!(func.name, "printf");
    assert!(func.variadic);
}

#[test]
fn macro_binding_distinguishes_unsupported_forms() {
    let function_like = MacroBinding {
        name: "LOG".into(),
        body: "fmt".into(),
        function_like: true,
        form: MacroForm::FunctionLike,
        kind: MacroKind::Other,
        category: MacroCategory::Unsupported,
        value: None,
    };
    let object_like = MacroBinding {
        name: "INTERNAL_SENTINEL".into(),
        body: "((void*)0)".into(),
        function_like: false,
        form: MacroForm::ObjectLike,
        kind: MacroKind::Other,
        category: MacroCategory::Unsupported,
        value: None,
    };

    assert!(function_like.is_unsupported_function_like());
    assert!(!function_like.is_unsupported_object_like());
    assert!(object_like.is_unsupported_object_like());
    assert!(!object_like.is_unsupported_function_like());
}

#[test]
fn mod_enum_binding_construction() {
    let e = EnumBinding {
        name: Some("color".into()),
        variants: vec![
            EnumVariant {
                name: "RED".into(),
                value: Some(0),
            },
            EnumVariant {
                name: "GREEN".into(),
                value: Some(1),
            },
            EnumVariant {
                name: "BLUE".into(),
                value: Some(2),
            },
        ],
        representation: None,
        abi_confidence: None,
        source_offset: None,
    };
    assert_eq!(e.variants.len(), 3);
    assert_eq!(e.variants[0].value, Some(0));
}

#[test]
fn mod_function_pointer_type() {
    let ty = BindingType::FunctionPointer {
        return_type: Box::new(BindingType::Void),
        parameters: vec![BindingType::Int, BindingType::ptr(BindingType::Void)],
        variadic: false,
    };
    match &ty {
        BindingType::FunctionPointer {
            parameters,
            variadic,
            ..
        } => {
            assert_eq!(parameters.len(), 2);
            assert!(!variadic);
        }
        _ => panic!("expected function pointer"),
    }
}

#[test]
fn mod_const_pointer_vs_mut_pointer() {
    let const_ptr = BindingType::const_ptr(BindingType::Char);
    let mut_ptr = BindingType::ptr(BindingType::Char);
    assert_ne!(const_ptr, mut_ptr);

    match &const_ptr {
        BindingType::Pointer { const_pointee, .. } => assert!(const_pointee),
        _ => panic!("expected pointer"),
    }
    match &mut_ptr {
        BindingType::Pointer { const_pointee, .. } => assert!(!const_pointee),
        _ => panic!("expected pointer"),
    }
}
