#![allow(unused_imports)]
use linc::error::BicError;
use linc::ir::TypeLayout;
use linc::probe::{
    check_probe_request, classify_probe_subject, parse_layout_output, ParsedProbeLayout,
    ProbeSubjectKind,
};
use linc::raw_headers::HeaderConfig;

#[test]
fn parse_layout_output_roundtrip() {
    let parsed = parse_layout_output("widget\t16\t8\nvalue_t\t4\t4\n").unwrap();
    assert_eq!(
        parsed,
        vec![
            ParsedProbeLayout {
                layout: TypeLayout {
                    name: "widget".into(),
                    size: 16,
                    align: 8,
                },
                enum_underlying_size: None,
                enum_is_signed: None,
                fields: Vec::new(),
            },
            ParsedProbeLayout {
                layout: TypeLayout {
                    name: "value_t".into(),
                    size: 4,
                    align: 4,
                },
                enum_underlying_size: None,
                enum_is_signed: None,
                fields: Vec::new(),
            },
        ]
    );
}

#[test]
fn probe_rejects_invalid_config_before_execution() {
    let err = check_probe_request(
        &HeaderConfig::new().header("").probe_type_layout("size_t"),
        &["size_t"],
    )
    .unwrap_err();
    assert!(matches!(err, BicError::InvalidConfig { .. }));
}

#[test]
fn probe_subject_kind_classification_handles_records_and_enums() {
    assert_eq!(classify_probe_subject("size_t"), ProbeSubjectKind::Type);
    assert_eq!(
        classify_probe_subject("struct widget"),
        ProbeSubjectKind::Record
    );
    assert_eq!(
        classify_probe_subject(" union payload"),
        ProbeSubjectKind::Record
    );
    assert_eq!(classify_probe_subject("enum mode"), ProbeSubjectKind::Enum);
}

#[test]
fn parse_layout_output_captures_enum_representation() {
    let parsed = parse_layout_output("enum mode\t4\t4\t4\t1\n").unwrap();
    assert_eq!(parsed.len(), 1);
    assert_eq!(parsed[0].layout.name, "enum mode");
    assert_eq!(parsed[0].enum_underlying_size, Some(4));
    assert_eq!(parsed[0].enum_is_signed, Some(true));
    assert!(parsed[0].fields.is_empty());
}

#[test]
fn parse_layout_output_captures_field_offsets() {
    let parsed = parse_layout_output(
        "L\tstruct widget\t16\t8\t-\t-\nF\tstruct widget\tx\t0\nF\tstruct widget\ty\t8\n",
    )
    .unwrap();
    assert_eq!(parsed.len(), 1);
    assert_eq!(parsed[0].fields.len(), 2);
    assert_eq!(parsed[0].fields[0].name, "x");
    assert_eq!(parsed[0].fields[0].offset_bytes, Some(0));
}

#[test]
fn parse_layout_output_captures_partial_bitfield_probe_data() {
    let parsed = parse_layout_output(
        "L\tstruct flags\t4\t4\t-\t-\nF\tstruct flags\tvalue\t-\t3\n",
    )
    .unwrap();
    assert_eq!(parsed.len(), 1);
    assert_eq!(parsed[0].fields.len(), 1);
    assert_eq!(parsed[0].fields[0].name, "value");
    assert_eq!(parsed[0].fields[0].offset_bytes, None);
    assert_eq!(parsed[0].fields[0].bit_width, Some(3));
}

#[test]
fn parse_layout_output_with_fields_and_bitfields() {
    let output = "L\tstruct widget\t16\t8\t-\t-\nF\tstruct widget\tx\t0\t-\nF\tstruct widget\ty\t4\t-\nL\tstruct flags\t4\t4\t-\t-\nF\tstruct flags\ta\t-\t3\nF\tstruct flags\tb\t-\t5\n";
    let parsed = parse_layout_output(output).unwrap();
    assert_eq!(parsed.len(), 2);
    assert_eq!(parsed[0].layout.name, "struct widget");
    assert_eq!(parsed[0].fields.len(), 2);
    assert_eq!(parsed[0].fields[0].name, "x");
    assert_eq!(parsed[0].fields[0].offset_bytes, Some(0));
    assert_eq!(parsed[0].fields[0].bit_width, None);
    assert_eq!(parsed[0].fields[1].name, "y");
    assert_eq!(parsed[0].fields[1].offset_bytes, Some(4));

    assert_eq!(parsed[1].layout.name, "struct flags");
    assert_eq!(parsed[1].fields.len(), 2);
    assert_eq!(parsed[1].fields[0].name, "a");
    assert_eq!(parsed[1].fields[0].offset_bytes, None);
    assert_eq!(parsed[1].fields[0].bit_width, Some(3));
    assert_eq!(parsed[1].fields[1].bit_width, Some(5));
}

#[test]
fn parse_layout_output_with_enum_evidence() {
    let output = "L\tenum mode\t4\t4\t4\t1\n";
    let parsed = parse_layout_output(output).unwrap();
    assert_eq!(parsed.len(), 1);
    assert_eq!(parsed[0].layout.name, "enum mode");
    assert_eq!(parsed[0].enum_underlying_size, Some(4));
    assert_eq!(parsed[0].enum_is_signed, Some(true));
}

#[test]
fn classify_probe_subject_categories() {
    assert_eq!(classify_probe_subject("struct foo"), ProbeSubjectKind::Record);
    assert_eq!(classify_probe_subject("union bar"), ProbeSubjectKind::Record);
    assert_eq!(classify_probe_subject("enum baz"), ProbeSubjectKind::Enum);
    assert_eq!(classify_probe_subject("size_t"), ProbeSubjectKind::Type);
}

