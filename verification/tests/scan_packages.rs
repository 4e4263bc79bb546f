#![allow(unused_imports)]
use linc::diagnostics::{Diagnostic, DiagnosticKind, Severity};
use linc::error::BicError;
use linc::ir::{
    AbiConfidence, BindingItem, BindingItemKind, BindingPackage, BindingTarget, BindingType,
    CallingConvention, DeclarationProvenance, FunctionBinding, MacroValue, TypeAliasBinding,
    TypeLayout, VariableBinding,
};
use linc::line_markers::{FileOriginMap, OriginFilter, SourceOrigin};
use linc::probe::{
    AbiProbeReport, ProbeConfidence, ProbeSubjectKind, ProbeSubjectReport, RecordCompleteness,
};
use linc::raw_headers::{Flavor, HeaderConfig};

const PREPROCESSED: &str = "# 1 \"widget.h\"\nint a;\n# 1 \"/usr/include/stdio.h\" 1 3\nint b;\n";

fn function(name: &str, offset: Option<usize>) -> BindingItem {
    BindingItem::Function(FunctionBinding {
        name: name.into(),
        calling_convention: CallingConvention::C,
        parameters: Vec::new(),
        return_type: BindingType::Void,
        variadic: false,
        source_offset: offset,
    })
}

fn variable(name: &str, offset: Option<usize>) -> BindingItem {
    BindingItem::Variable(VariableBinding { name: name.into(), ty: BindingType::Int, source_offset: offset })
}

fn alias(name: &str, target: BindingType, offset: Option<usize>) -> BindingItem {
    BindingItem::TypeAlias(TypeAliasBinding {
        name: name.into(),
        target,
        canonical_resolution: None,
        abi_confidence: None,
        source_offset: offset,
    })
}

fn provenance(name: &str) -> DeclarationProvenance {
    DeclarationProvenance {
        item_name: Some(name.into()),
        item_kind: None,
        source_offset: None,
        source_origin: None,
        source_location: None,
    }
}

fn item_names(items: &[BindingItem]) -> Vec<String> {
    items
        .iter()
        .map(|item| match item {
            BindingItem::Function(f) => f.name.clone(),
            BindingItem::Variable(v) => v.name.clone(),
            BindingItem::TypeAlias(t) => t.name.clone(),
            _ => String::new(),
        })
        .collect()
}

fn filtered_package() -> BindingPackage {
    let mut pkg = BindingPackage::new();
    pkg.items = vec![function("a", Some(15)), variable("b", Some(53)), function("c", None)];
    pkg.provenance = vec![provenance("a"), provenance("b"), provenance("c")];
    pkg
}

#[test]
fn origin_map_classifies_entry_and_system_lines() {
    let map = FileOriginMap::parse(PREPROCESSED, &["widget.h"]);
    assert_eq!(map.origin_at(15), SourceOrigin::Entry);
    assert_eq!(map.origin_at(53), SourceOrigin::System);
}

#[test]
fn origin_filter_drops_system_declarations_with_their_provenance() {
    let map = FileOriginMap::parse(PREPROCESSED, &["widget.h"]);
    let mut pkg = filtered_package();
    pkg.filter_by_origin(&map, &OriginFilter::default());
    assert_eq!(item_names(&pkg.items), vec!["a".to_string(), "c".to_string()]);
    let kept: Vec<Option<String>> = pkg.provenance.iter().map(|p| p.item_name.clone()).collect();
    assert_eq!(kept, vec![Some("a".to_string()), Some("c".to_string())]);
}

#[test]
fn origin_filter_applied_twice_keeps_the_same_declarations() {
    let map = FileOriginMap::parse(PREPROCESSED, &["widget.h"]);
    let mut once = filtered_package();
    once.filter_by_origin(&map, &OriginFilter::default());
    let mut twice = once.clone();
    twice.filter_by_origin(&map, &OriginFilter::default());
    assert_eq!(item_names(&twice.items), item_names(&once.items));
    assert_eq!(twice.provenance, once.provenance);
}

#[test]
fn origin_filter_is_applied_only_when_configured() {
    let map = FileOriginMap::parse(PREPROCESSED, &["widget.h"]);
    let mut unfiltered = filtered_package();
    HeaderConfig::new().header("widget.h").no_origin_filter().apply_origin_filter(&mut unfiltered, &map);
    assert_eq!(unfiltered.items.len(), 3);
    let mut filtered = filtered_package();
    HeaderConfig::new().header("widget.h").apply_origin_filter(&mut filtered, &map);
    assert_eq!(item_names(&filtered.items), vec!["a".to_string(), "c".to_string()]);
}

#[test]
fn failed_parse_package_records_one_parse_error() {
    let config = HeaderConfig::new().header("a.h").header("b.h");
    let pkg = config.package_from_failed_parse("unexpected token", Vec::new(), Vec::new(), None, None);
    assert!(pkg.items.is_empty());
    assert_eq!(pkg.source_path.as_deref(), Some("a.h, b.h"));
    assert_eq!(pkg.diagnostics.len(), 1);
    assert_eq!(pkg.diagnostics[0].kind, DiagnosticKind::ParseFailed);
    assert_eq!(pkg.diagnostics[0].severity, Severity::Error);
    assert_eq!(pkg.diagnostics[0].message, "parse error: unexpected token");
}

#[test]
fn parsed_package_keeps_declarations_and_resolves_aliases() {
    let config = HeaderConfig::new().header("widget.h");
    let source = "# 1 \"widget.h\"\ntypedef int base_t;\ntypedef base_t mid_t;\n";
    let items = vec![
        alias("base_t", BindingType::Int, Some(15)),
        alias("mid_t", BindingType::TypedefRef("base_t".into()), Some(35)),
    ];
    let diagnostics = vec![Diagnostic::warning(DiagnosticKind::DeclarationUnsupported, "skipped")];
    let pkg = config.package_from_parse(items, diagnostics, Vec::new(), Vec::new(), source, None, None);
    assert_eq!(pkg.source_path.as_deref(), Some("widget.h"));
    assert_eq!(pkg.items.len(), 2);
    assert_eq!(pkg.diagnostics.len(), 1);
    assert_eq!(pkg.diagnostics[0].message, "skipped");
    match &pkg.items[1] {
        BindingItem::TypeAlias(t) => {
            let resolution = t.canonical_resolution.as_ref().unwrap();
            assert_eq!(resolution.alias_chain, vec!["base_t".to_string()]);
            assert_eq!(resolution.terminal_target, BindingType::Int);
        }
        _ => panic!("alias expected"),
    }
    assert_eq!(pkg.provenance.len(), 2);
    assert_eq!(pkg.provenance[0].item_name.as_deref(), Some("base_t"));
    assert_eq!(pkg.provenance[0].item_kind, Some(BindingItemKind::TypeAlias));
    assert_eq!(pkg.provenance[0].source_offset, Some(15));
    assert_eq!(pkg.provenance[0].source_origin, Some(SourceOrigin::Entry));
}

fn widget_report() -> AbiProbeReport {
    AbiProbeReport {
        target: BindingTarget::default(),
        compiler_command: "cc".into(),
        entry_headers: vec!["widget.h".into()],
        subjects: vec![ProbeSubjectReport {
            name: "size_t".into(),
            kind: ProbeSubjectKind::Type,
            confidence: ProbeConfidence::MeasuredLayout,
            record_completeness: None,
            enum_underlying_size: None,
            enum_is_signed: None,
            fields: Vec::new(),
            layout: TypeLayout { name: "size_t".into(), size: 8, align: 8 },
        }],
        layouts: vec![TypeLayout { name: "size_t".into(), size: 8, align: 8 }],
    }
}

#[test]
fn requested_probes_attach_layouts_and_evidence() {
    let config = HeaderConfig::new().header("widget.h").probe_type_layout("size_t");
    let mut pkg = BindingPackage::new();
    pkg.items = vec![alias("size_t", BindingType::ULong, None)];
    config.attach_requested_probes(&mut pkg, Ok(widget_report())).unwrap();
    assert_eq!(pkg.layouts, vec![TypeLayout { name: "size_t".into(), size: 8, align: 8 }]);
    match &pkg.items[0] {
        BindingItem::TypeAlias(t) => assert_eq!(t.abi_confidence, Some(AbiConfidence::LayoutProbed)),
        _ => panic!("alias expected"),
    }
}

#[test]
fn requested_probes_do_nothing_without_probe_types() {
    let config = HeaderConfig::new().header("widget.h");
    let mut pkg = BindingPackage::new();
    pkg.items = vec![alias("size_t", BindingType::ULong, None)];
    let before = pkg.clone();
    config.attach_requested_probes(&mut pkg, Ok(widget_report())).unwrap();
    assert_eq!(pkg.layouts, before.layouts);
    assert_eq!(pkg.items, before.items);
}

#[test]
fn probe_failures_become_warnings_or_errors() {
    let config = HeaderConfig::new().header("widget.h").probe_type_layout("struct opaque");

    let mut pkg = BindingPackage::new();
    let compile = BicError::ProbeCompile { compiler: "cc".into(), stderr: "error: incomplete type".into() };
    config.attach_requested_probes(&mut pkg, Err(compile)).unwrap();
    assert_eq!(pkg.diagnostics.len(), 1);
    assert_eq!(pkg.diagnostics[0].kind, DiagnosticKind::ProbeUnavailable);
    assert_eq!(pkg.diagnostics[0].severity, Severity::Warning);
    assert_eq!(
        pkg.diagnostics[0].message,
        "probe failed: layout probe compilation with 'cc' failed: error: incomplete type"
    );

    let mut pkg = BindingPackage::new();
    let execution = BicError::ProbeExecution { reason: "crashed".into() };
    config.attach_requested_probes(&mut pkg, Err(execution)).unwrap();
    assert_eq!(pkg.diagnostics[0].kind, DiagnosticKind::ProbeFailed);
    assert_eq!(pkg.diagnostics[0].message, "probe failed: layout probe execution failed: crashed");

    let mut pkg = BindingPackage::new();
    let invalid = BicError::InvalidConfig { reason: "bad".into() };
    let err = config.attach_requested_probes(&mut pkg, Err(invalid)).unwrap_err();
    assert!(matches!(err, BicError::InvalidConfig { .. }));
    assert!(pkg.diagnostics.is_empty());

    let mut pkg = BindingPackage::new();
    let err = config.attach_requested_probes(&mut pkg, Err(BicError::NoProbeTypes)).unwrap_err();
    assert!(matches!(err, BicError::NoProbeTypes));
}

#[test]
fn preprocessor_invocations_carry_search_paths_and_defines() {
    let config = HeaderConfig::new()
        .header("widget.h")
        .include_dir("inc")
        .define("FOO", Some("1".into()))
        .define("BAR", None);
    let (command, args) = config.describe_invocation("combined.h");
    assert_eq!(command, "gcc");
    assert_eq!(args, vec!["-E", "-Iinc", "-DFOO=1", "-DBAR", "combined.h"]);
    let (command, args) = config.clone().flavor(Flavor::ClangC11).macro_capture_invocation("combined.h");
    assert_eq!(command, "clang");
    assert_eq!(args, vec!["-dD", "-E", "-Iinc", "-DFOO=1", "-DBAR", "combined.h"]);
    assert_eq!(config.search_and_define_flags(), vec!["-Iinc", "-DFOO=1", "-DBAR"]);
}

#[test]
fn macro_capture_reads_definitions_from_output() {
    let config = HeaderConfig::new().header("widget.h");
    let (macros, provenance) = config.capture_macros(Some("# 1 \"widget.h\"\n#define WIDGET_MAX 16\n"));
    assert_eq!(macros.len(), 1);
    assert_eq!(macros[0].name, "WIDGET_MAX");
    assert_eq!(macros[0].value, Some(MacroValue::Integer(16)));
    assert_eq!(provenance.len(), 1);
    let (macros, provenance) = config.capture_macros(None);
    assert!(macros.is_empty());
    assert!(provenance.is_empty());
}

#[test]
fn diagnostics_are_counted_by_kind_name() {
    let mut pkg = BindingPackage::new();
    pkg.diagnostics = vec![
        Diagnostic::warning(DiagnosticKind::ProbeFailed, "one"),
        Diagnostic::error(DiagnosticKind::ParseFailed, "two"),
        Diagnostic::warning(DiagnosticKind::ProbeFailed, "three"),
    ];
    let counts = pkg.diagnostics_count_by_kind();
    assert_eq!(counts.len(), 2);
    assert!(counts.contains(&("ProbeFailed".to_string(), 2)));
    assert!(counts.contains(&("ParseFailed".to_string(), 1)));
}

#[test]
fn failed_preprocessing_package_records_the_preprocessor_error() {
    let config = HeaderConfig::new().header("missing.h");
    let pkg = config.package_from_failed_preprocessing("missing.h: No such file or directory");
    assert!(pkg.items.is_empty());
    assert!(pkg.source_path.is_none());
    assert_eq!(pkg.diagnostics.len(), 1);
    assert_eq!(pkg.diagnostics[0].kind, DiagnosticKind::PreprocessingFailed);
    assert_eq!(pkg.diagnostics[0].severity, Severity::Error);
    assert_eq!(pkg.diagnostics[0].message, "preprocessor failed: missing.h: No such file or directory");
}
