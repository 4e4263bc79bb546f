#![allow(unused_imports)]
use linc::error::BicError;
use linc::ir::{
    AbiConfidence, AliasResolution, BindingItem, BindingPackage, BindingTarget, BindingType,
    EnumBinding, EnumRepresentation, EnumVariant, FieldBinding, FieldLayout, RecordBinding,
    RecordKind, RecordRepresentation, TypeAliasBinding, TypeLayout, TypeQualifiers,
};
use linc::probe::{
    build_probe_source, probe_report_from_output, record_field_specs, AbiProbeReport,
    ProbeConfidence, ProbeSubjectKind, ProbeSubjectReport, ProbedFieldLayout, ProbedFieldSpec,
    RecordCompleteness,
};
use linc::raw_headers::{attach_canonical_alias_resolution, attach_probe_evidence, HeaderConfig};

fn alias(name: &str, target: BindingType) -> BindingItem {
    BindingItem::TypeAlias(TypeAliasBinding {
        name: name.into(),
        target,
        canonical_resolution: None,
        abi_confidence: None,
        source_offset: None,
    })
}

fn field(name: Option<&str>, bit_width: Option<u64>) -> FieldBinding {
    FieldBinding {
        name: name.map(|n| n.to_string()),
        ty: BindingType::UInt,
        bit_width,
        layout: None,
    }
}

fn record(kind: RecordKind, name: Option<&str>, fields: Option<Vec<FieldBinding>>) -> BindingItem {
    BindingItem::Record(RecordBinding {
        kind,
        name: name.map(|n| n.to_string()),
        fields,
        representation: None,
        abi_confidence: None,
        source_offset: None,
    })
}

fn enumeration(name: &str) -> BindingItem {
    BindingItem::Enum(EnumBinding {
        name: Some(name.into()),
        variants: vec![EnumVariant { name: "MODE_A".into(), value: Some(0) }],
        representation: None,
        abi_confidence: None,
        source_offset: None,
    })
}

fn subject(
    name: &str,
    kind: ProbeSubjectKind,
    size: u64,
    align: u64,
    fields: Vec<ProbedFieldLayout>,
) -> ProbeSubjectReport {
    ProbeSubjectReport {
        name: name.into(),
        kind,
        confidence: ProbeConfidence::MeasuredLayout,
        record_completeness: if kind == ProbeSubjectKind::Record {
            Some(RecordCompleteness::Complete)
        } else {
            None
        },
        enum_underlying_size: None,
        enum_is_signed: None,
        fields,
        layout: TypeLayout { name: name.into(), size, align },
    }
}

fn typedef_ref(name: &str) -> BindingType {
    BindingType::TypedefRef(name.into())
}

fn resolution_of(item: &BindingItem) -> Option<AliasResolution> {
    match item {
        BindingItem::TypeAlias(a) => a.canonical_resolution.clone(),
        _ => panic!("not a type alias"),
    }
}

#[test]
fn alias_resolution_follows_typedef_chains() {
    let mut items = vec![
        alias("base_t", BindingType::Int),
        alias("mid_t", typedef_ref("base_t")),
        alias(
            "ptr_t",
            BindingType::Pointer {
                pointee: Box::new(typedef_ref("mid_t")),
                const_pointee: false,
                qualifiers: TypeQualifiers::default(),
            },
        ),
        alias("dangling_t", typedef_ref("missing_t")),
        alias("self_t", typedef_ref("self_t")),
        BindingItem::Variable(linc::ir::VariableBinding {
            name: "counter".into(),
            ty: typedef_ref("base_t"),
            source_offset: None,
        }),
    ];
    attach_canonical_alias_resolution(&mut items);
    assert_eq!(items.len(), 6);
    assert_eq!(resolution_of(&items[0]), None);
    assert_eq!(
        resolution_of(&items[1]),
        Some(AliasResolution { alias_chain: vec!["base_t".into()], terminal_target: BindingType::Int })
    );
    assert_eq!(
        resolution_of(&items[2]),
        Some(AliasResolution {
            alias_chain: vec!["mid_t".into(), "base_t".into()],
            terminal_target: BindingType::Pointer {
                pointee: Box::new(BindingType::Int),
                const_pointee: false,
                qualifiers: TypeQualifiers::default(),
            },
        })
    );
    assert_eq!(resolution_of(&items[3]), None);
    assert_eq!(
        resolution_of(&items[4]),
        Some(AliasResolution { alias_chain: vec!["self_t".into()], terminal_target: typedef_ref("self_t") })
    );
    assert!(matches!(&items[5], BindingItem::Variable(v) if v.ty == typedef_ref("base_t")));
}

#[test]
fn probe_evidence_attaches_to_aliases_records_and_enums() {
    let mut items = vec![
        alias("size_t", BindingType::ULong),
        record(
            RecordKind::Struct,
            Some("widget"),
            Some(vec![field(Some("x"), None), field(Some("flags"), Some(3)), field(None, None)]),
        ),
        enumeration("mode"),
        record(RecordKind::Union, Some("payload"), Some(vec![field(Some("raw"), None)])),
    ];
    let mut mode = subject("enum mode", ProbeSubjectKind::Enum, 4, 4, Vec::new());
    mode.enum_underlying_size = Some(4);
    mode.enum_is_signed = Some(false);
    let subjects = vec![
        subject("size_t", ProbeSubjectKind::Type, 8, 8, Vec::new()),
        subject(
            "struct widget",
            ProbeSubjectKind::Record,
            8,
            4,
            vec![
                ProbedFieldLayout { name: "x".into(), offset_bytes: Some(0), bit_width: None },
                ProbedFieldLayout { name: "flags".into(), offset_bytes: None, bit_width: Some(3) },
            ],
        ),
        mode,
    ];
    attach_probe_evidence(&mut items, &subjects);

    match &items[0] {
        BindingItem::TypeAlias(a) => assert_eq!(a.abi_confidence, Some(AbiConfidence::LayoutProbed)),
        _ => panic!("alias expected"),
    }
    match &items[1] {
        BindingItem::Record(r) => {
            assert_eq!(
                r.representation,
                Some(RecordRepresentation {
                    size: Some(8),
                    align: Some(4),
                    completeness: Some("Complete".into()),
                })
            );
            assert_eq!(r.abi_confidence, Some(AbiConfidence::PartialBitfieldLayout));
            let fields = r.fields.as_ref().unwrap();
            assert_eq!(fields[0].layout, Some(FieldLayout { offset_bytes: Some(0) }));
            assert_eq!(fields[1].layout, Some(FieldLayout { offset_bytes: None }));
            assert_eq!(fields[2].layout, None);
        }
        _ => panic!("record expected"),
    }
    match &items[2] {
        BindingItem::Enum(e) => {
            assert_eq!(
                e.representation,
                Some(EnumRepresentation { underlying_size: Some(4), is_signed: Some(false) })
            );
            assert_eq!(e.abi_confidence, Some(AbiConfidence::RepresentationProbed));
        }
        _ => panic!("enum expected"),
    }
    match &items[3] {
        BindingItem::Record(r) => {
            assert_eq!(r.representation, None);
            assert_eq!(r.abi_confidence, None);
        }
        _ => panic!("record expected"),
    }
}

#[test]
fn record_confidence_reflects_field_offsets_and_completeness() {
    let mut items = vec![
        record(RecordKind::Struct, Some("a"), Some(vec![field(Some("x"), None)])),
        record(RecordKind::Struct, Some("b"), None),
        record(RecordKind::Union, Some("c"), Some(vec![field(Some("y"), None)])),
    ];
    let mut plain = subject("union c", ProbeSubjectKind::Record, 4, 4, Vec::new());
    plain.record_completeness = None;
    let subjects = vec![
        subject(
            "struct a",
            ProbeSubjectKind::Record,
            4,
            4,
            vec![ProbedFieldLayout { name: "x".into(), offset_bytes: Some(0), bit_width: None }],
        ),
        subject("struct b", ProbeSubjectKind::Record, 16, 8, Vec::new()),
        plain,
    ];
    attach_probe_evidence(&mut items, &subjects);
    let confidences: Vec<Option<AbiConfidence>> = items
        .iter()
        .map(|item| match item {
            BindingItem::Record(r) => r.abi_confidence,
            _ => None,
        })
        .collect();
    assert_eq!(
        confidences,
        vec![
            Some(AbiConfidence::FieldOffsetsProbed),
            Some(AbiConfidence::RepresentationProbed),
            Some(AbiConfidence::LayoutProbed),
        ]
    );
}

#[test]
fn record_field_specs_lists_named_fields_of_named_records() {
    let items = vec![
        record(
            RecordKind::Struct,
            Some("widget"),
            Some(vec![field(Some("x"), None), field(None, Some(2)), field(Some("flags"), Some(3))]),
        ),
        record(RecordKind::Union, Some("opaque"), None),
        record(RecordKind::Struct, None, Some(vec![field(Some("anon"), None)])),
        record(RecordKind::Union, Some("bits"), Some(vec![field(None, Some(1))])),
        record(RecordKind::Union, Some("value"), Some(vec![field(Some("i"), None)])),
    ];
    let specs = record_field_specs(&items);
    assert_eq!(specs.len(), 2);
    let widget = specs.iter().find(|(k, _)| k == "struct widget").unwrap();
    assert_eq!(
        widget.1,
        vec![
            ProbedFieldSpec { name: "x".into(), bit_width: None },
            ProbedFieldSpec { name: "flags".into(), bit_width: Some(3) },
        ]
    );
    let value = specs.iter().find(|(k, _)| k == "union value").unwrap();
    assert_eq!(value.1, vec![ProbedFieldSpec { name: "i".into(), bit_width: None }]);
}

#[test]
fn probe_source_prints_layouts_and_field_offsets() {
    let config = HeaderConfig::new().header("widget.h");
    let specs = vec![(
        "struct widget".to_string(),
        vec![
            ProbedFieldSpec { name: "x".into(), bit_width: None },
            ProbedFieldSpec { name: "flags".into(), bit_width: Some(3) },
        ],
    )];
    let source = build_probe_source(&config, &["struct widget", "enum mode", "size_t"], &specs);
    let expected = [
        "#include <stdio.h>\n#include <stddef.h>\n#include \"widget.h\"\n\nint main(void) {\n",
        r#"    printf("L\t%s\t%zu\t%zu\t%s\t%s\n", "struct widget", sizeof(struct widget), _Alignof(struct widget), "-", "-");"#,
        "\n",
        r#"    printf("F\t%s\t%s\t%zu\t-\n", "struct widget", "x", offsetof(struct widget, x));"#,
        "\n",
        r#"    printf("F\t%s\t%s\t-\t%zu\n", "struct widget", "flags", (size_t)3);"#,
        "\n",
        r#"    printf("L\t%s\t%zu\t%zu\t%zu\t%d\n", "enum mode", sizeof(enum mode), _Alignof(enum mode), sizeof(enum mode), ((enum mode)-1) < ((enum mode)0) ? 1 : 0);"#,
        "\n",
        r#"    printf("L\t%s\t%zu\t%zu\t%s\t%s\n", "size_t", sizeof(size_t), _Alignof(size_t), "-", "-");"#,
        "\n    return 0;\n}\n",
    ]
    .concat();
    assert_eq!(source, expected);
}

#[test]
fn probe_source_escapes_quotes_in_names() {
    let config = HeaderConfig::new().header("q.h");
    let source = build_probe_source(&config, &["a\"b"], &Vec::new());
    assert!(source.contains(r#""a\"b", sizeof(a"b)"#), "{source}");
}

#[test]
fn probe_report_pairs_requested_names_with_parsed_layouts() {
    let config = HeaderConfig::new().header("widget.h").compiler("cc");
    let stdout = "L\tstruct widget\t8\t4\t-\t-\nF\tstruct widget\tx\t0\t-\nL\tenum mode\t4\t4\t4\t0\n";
    let report = probe_report_from_output(
        &config,
        &["struct widget", "enum mode"],
        stdout,
        BindingTarget::default(),
    )
    .unwrap();
    assert_eq!(report.compiler_command, "cc");
    assert_eq!(report.entry_headers, vec!["widget.h".to_string()]);
    assert_eq!(
        report.layouts,
        vec![
            TypeLayout { name: "struct widget".into(), size: 8, align: 4 },
            TypeLayout { name: "enum mode".into(), size: 4, align: 4 },
        ]
    );
    assert_eq!(report.subjects.len(), 2);
    let widget = &report.subjects[0];
    assert_eq!(widget.kind, ProbeSubjectKind::Record);
    assert_eq!(widget.record_completeness, Some(RecordCompleteness::Complete));
    assert_eq!(
        widget.fields,
        vec![ProbedFieldLayout { name: "x".into(), offset_bytes: Some(0), bit_width: None }]
    );
    let mode = &report.subjects[1];
    assert_eq!(mode.kind, ProbeSubjectKind::Enum);
    assert_eq!(mode.record_completeness, None);
    assert_eq!(mode.enum_underlying_size, Some(4));
    assert_eq!(mode.enum_is_signed, Some(false));
    assert_eq!(mode.confidence, ProbeConfidence::MeasuredLayout);
}

#[test]
fn probe_report_keeps_only_names_with_a_layout() {
    let config = HeaderConfig::new().header("h.h");
    let report =
        probe_report_from_output(&config, &["a_t", "b_t"], "a_t\t2\t2\n", BindingTarget::default())
            .unwrap();
    assert_eq!(report.subjects.len(), 1);
    assert_eq!(report.subjects[0].name, "a_t");
    assert_eq!(report.compiler_command, "gcc");
}

#[test]
fn probe_report_rejects_malformed_output() {
    let config = HeaderConfig::new().header("h.h");
    let err = probe_report_from_output(&config, &["w"], "L\tw\tx\t4\n", BindingTarget::default())
        .unwrap_err();
    match err {
        BicError::ProbeOutput { reason } => {
            assert!(reason.starts_with("invalid size in probe output 'L\tw\tx\t4'"), "{reason}")
        }
        other => panic!("unexpected error {:?}", other),
    }
    let err = probe_report_from_output(
        &config,
        &["w"],
        "F\tw\tx\t0\t-\n",
        BindingTarget::default(),
    )
    .unwrap_err();
    assert!(matches!(err, BicError::ProbeOutput { .. }));
}
