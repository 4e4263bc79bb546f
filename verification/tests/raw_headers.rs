#![allow(unused_imports)]
use linc::error::LincError;
use linc::ir::{
    LinkArtifactKind, LinkInput, LinkLibraryKind, LinkRequirementSource, LinkResolutionMode,
    MacroCategory, MacroForm, MacroKind, MacroValue, NativeSurfaceKind,
};
use linc::line_markers::SourceOrigin;
const MACRO_REGRESSION_FIXTURE: &str = "#define ZLIB_VERSION \"1.3.1\"\n#define ZLIB_VERNUM 0x1310\n#define PNG_LIBPNG_VER_STRING \"1.6.43\"\n#define PNG_SETJMP_SUPPORTED 1\n#define PNGAPI __cdecl\n#define PNG_UNUSED(param) (void)param;\n";

use linc::raw_headers::{
    parse_macro_definitions, parse_macro_definitions_with_provenance, Flavor, HeaderConfig,
};

#[test]
fn config_builder() {
    let cfg = HeaderConfig::new()
        .header("foo.h")
        .include_dir("/usr/include")
        .framework_dir("/System/Library/Frameworks")
        .library_dir("/usr/lib")
        .define("DEBUG", None)
        .define("VERSION", Some("2".into()))
        .link_lib("m")
        .link_framework("Security")
        .link_static_lib("z")
        .link_shared_lib("ssl")
        .link_object_file("build/plugin.o")
        .link_static_artifact("native/libfoo.a")
        .link_shared_artifact("native/libfoo.so")
        .prefer_static_linking()
        .target_constraint("linux")
        .probe_type_layout("struct foo")
        .compiler("gcc")
        .flavor(Flavor::GnuC11);

    assert_eq!(cfg.entry_headers.len(), 1);
    assert_eq!(cfg.include_dirs.len(), 1);
    assert_eq!(cfg.framework_dirs.len(), 1);
    assert_eq!(cfg.library_dirs.len(), 1);
    assert_eq!(cfg.defines.len(), 2);
    assert_eq!(cfg.link_libraries.len(), 3);
    assert_eq!(cfg.link_frameworks.len(), 1);
    assert_eq!(cfg.link_artifacts.len(), 3);
    assert_eq!(cfg.preferred_link_mode, LinkResolutionMode::PreferStatic);
    assert_eq!(cfg.platform_constraints, vec!["linux".to_string()]);
    assert_eq!(cfg.native_surface_kind(), NativeSurfaceKind::Mixed);
    assert_eq!(cfg.probe_types.len(), 1);
    assert_eq!(cfg.compiler.as_deref(), Some("gcc"));
    assert_eq!(cfg.flavor, Some(Flavor::GnuC11));
}

#[test]
fn bulk_config_builders_append_in_declared_order() {
    let cfg = HeaderConfig::new()
        .headers(&["a.h", "b.h"])
        .include_dirs(&["/usr/include", "/usr/local/include"])
        .framework_dirs(&["/System/Library/Frameworks", "/Library/Frameworks"])
        .library_dirs(&["/usr/lib", "/usr/local/lib"])
        .defines(&[
            ("DEBUG", None),
            ("VERSION", Some("2".to_string())),
        ])
        .target_constraints(&["linux", "x86_64"])
        .probe_type_layouts(&["size_t", "struct stat"]);

    assert_eq!(
        cfg.entry_headers,
        vec!["a.h".to_string(), "b.h".to_string()]
    );
    assert_eq!(
        cfg.include_dirs,
        vec!["/usr/include".to_string(), "/usr/local/include".to_string()]
    );
    assert_eq!(
        cfg.framework_dirs,
        vec![
            "/System/Library/Frameworks".to_string(),
            "/Library/Frameworks".to_string()
        ]
    );
    assert_eq!(
        cfg.library_dirs,
        vec!["/usr/lib".to_string(), "/usr/local/lib".to_string()]
    );
    assert_eq!(
        cfg.defines,
        vec![
            ("DEBUG".to_string(), None),
            ("VERSION".to_string(), Some("2".to_string()))
        ]
    );
    assert_eq!(
        cfg.platform_constraints,
        vec!["linux".to_string(), "x86_64".to_string()]
    );
    assert_eq!(
        cfg.probe_types,
        vec!["size_t".to_string(), "struct stat".to_string()]
    );
}

#[test]
fn config_domain_views_reflect_shared_config() {
    let cfg = HeaderConfig::new()
        .entry_header("api.h")
        .add_include_dir("/usr/include")
        .add_framework_dir("/System/Library/Frameworks")
        .add_library_dir("/usr/lib")
        .define_flag("DEBUG")
        .define_value("VERSION", "2")
        .link_library("z")
        .link_framework("Security")
        .link_shared_artifact("/usr/lib/libssl.so")
        .target_constraint("linux")
        .request_probe_type_layout("size_t");

    let preprocessing = cfg.preprocessing();
    assert_eq!(preprocessing.include_dirs, &["/usr/include".to_string()]);
    assert_eq!(
        preprocessing.defines,
        &[
            ("DEBUG".to_string(), None),
            ("VERSION".to_string(), Some("2".to_string()))
        ]
    );

    let binding = cfg.binding_surface();
    assert_eq!(binding.entry_headers, &["api.h".to_string()]);

    let linking = cfg.linking();
    assert_eq!(linking.framework_dirs, &["/System/Library/Frameworks".to_string()]);
    assert_eq!(linking.library_dirs, &["/usr/lib".to_string()]);
    assert_eq!(linking.link_libraries.len(), 1);
    assert_eq!(linking.link_frameworks.len(), 1);
    assert_eq!(linking.link_artifacts.len(), 1);
    assert_eq!(linking.platform_constraints, &["linux".to_string()]);

    let probing = cfg.probing();
    assert_eq!(probing.probe_types, &["size_t".to_string()]);
    assert!(cfg.filtering().is_some());
}

#[test]
fn config_validation_rejects_empty_values() {
    let bad_header = HeaderConfig::new().header("");
    let err = bad_header.validate().unwrap_err();
    assert!(matches!(err, LincError::InvalidConfig { .. }));
    assert!(err.to_string().contains("entry header path"));

    let bad_define = HeaderConfig::new().header("api.h").define("", None);
    let err = bad_define.validate().unwrap_err();
    assert!(matches!(err, LincError::InvalidConfig { .. }));
    assert!(err.to_string().contains("define name"));

    let bad_probe = HeaderConfig::new().header("api.h").probe_type_layout("");
    let err = bad_probe.validate().unwrap_err();
    assert!(matches!(err, LincError::InvalidConfig { .. }));
    assert!(err.to_string().contains("probe type name"));
}

#[test]
fn combined_source_generation() {
    let cfg = HeaderConfig::new()
        .header("a.h")
        .header("b.h");
    let combined = cfg.build_combined_source();
    assert!(combined.contains("#include \"a.h\""));
    assert!(combined.contains("#include \"b.h\""));
}

#[test]
fn binding_metadata_from_config_keeps_scan_and_link_inputs() {
    let cfg = HeaderConfig::new()
        .header("api.h")
        .include_dir("include")
        .framework_dir("frameworks")
        .library_dir("lib")
        .define("FOO", Some("1".into()))
        .link_framework("CoreFoundation")
        .link_static_lib("crypto")
        .link_static_artifact("lib/libcrypto.a")
        .prefer_static_linking()
        .target_constraint("linux")
        .target_constraint("x86_64")
        .probe_type_layout("struct widget");

    let target = cfg.binding_target(None, None);
    let inputs = cfg.binding_inputs();
    let link = cfg.binding_link_surface();

    assert_eq!(target.compiler_command.as_deref(), Some("gcc"));
    assert_eq!(target.flavor.as_deref(), Some("gnu-c11"));
    assert_eq!(inputs.entry_headers, vec!["api.h".to_string()]);
    assert_eq!(inputs.include_dirs, vec!["include".to_string()]);
    assert_eq!(inputs.defines.len(), 1);
    assert_eq!(link.include_paths, vec!["include".to_string()]);
    assert_eq!(link.framework_paths, vec!["frameworks".to_string()]);
    assert_eq!(link.library_paths, vec!["lib".to_string()]);
    assert_eq!(link.preferred_mode, LinkResolutionMode::PreferStatic);
    assert_eq!(link.native_surface_kind, NativeSurfaceKind::Mixed);
    assert_eq!(
        link.platform_constraints,
        vec!["linux".to_string(), "x86_64".to_string()]
    );
    assert_eq!(link.frameworks.len(), 1);
    assert_eq!(link.frameworks[0].name, "CoreFoundation");
    assert_eq!(link.libraries.len(), 1);
    assert_eq!(link.libraries[0].name, "crypto");
    assert_eq!(link.libraries[0].kind, LinkLibraryKind::Static);
    assert_eq!(link.libraries[0].source, LinkRequirementSource::Declared);
    assert_eq!(link.artifacts.len(), 1);
    assert_eq!(link.artifacts[0].path, "lib/libcrypto.a");
    assert_eq!(link.artifacts[0].kind, LinkArtifactKind::StaticLibrary);
    assert_eq!(link.artifacts[0].source, LinkRequirementSource::Declared);
    assert_eq!(link.ordered_inputs.len(), 3);
    match &link.ordered_inputs[0] {
        LinkInput::Framework(framework) => assert_eq!(framework.name, "CoreFoundation"),
        other => panic!("expected first ordered input to be framework, got {:?}", other),
    }
    match &link.ordered_inputs[1] {
        LinkInput::Library(lib) => assert_eq!(lib.name, "crypto"),
        other => panic!("expected second ordered input to be library, got {:?}", other),
    }
    match &link.ordered_inputs[2] {
        LinkInput::Artifact(artifact) => assert_eq!(artifact.path, "lib/libcrypto.a"),
        other => panic!("expected third ordered input to be artifact, got {:?}", other),
    }
    assert_eq!(cfg.probe_types, vec!["struct widget".to_string()]);
}

#[test]
fn native_surface_kind_inference() {
    let header_only = HeaderConfig::new().header("api.h");
    let library_names = HeaderConfig::new().header("api.h").link_lib("m");
    let concrete = HeaderConfig::new()
        .header("api.h")
        .link_static_artifact("lib/libdemo.a");
    let mixed = HeaderConfig::new()
        .header("api.h")
        .link_lib("m")
        .link_static_artifact("lib/libdemo.a");

    assert_eq!(header_only.native_surface_kind(), NativeSurfaceKind::HeaderOnly);
    assert_eq!(library_names.native_surface_kind(), NativeSurfaceKind::LibraryNames);
    assert_eq!(concrete.native_surface_kind(), NativeSurfaceKind::ConcreteArtifacts);
    assert_eq!(mixed.native_surface_kind(), NativeSurfaceKind::Mixed);
}

#[test]
fn parse_macro_definitions_captures_object_and_function_like_macros() {
    let macros = parse_macro_definitions(
        r#"
#define API_LEVEL 7
#define API_NAME "demo"
#define API_EXPR (1 << 2)
#define HAVE_ZLIB 1
#define API_EXPORT __attribute__((visibility("default")))
#define LOG(fmt) fmt
"#,
    );

    assert!(macros.iter().any(|m| {
        m.name == "API_LEVEL"
            && !m.function_like
            && m.form == MacroForm::ObjectLike
            && m.kind == MacroKind::Integer
            && m.category == MacroCategory::BindableConstant
            && m.value == Some(MacroValue::Integer(7))
    }));
    assert!(macros.iter().any(|m| {
        m.name == "API_NAME"
            && !m.function_like
            && m.form == MacroForm::ObjectLike
            && m.kind == MacroKind::String
            && m.category == MacroCategory::BindableConstant
            && m.value == Some(MacroValue::String("demo".into()))
    }));
    assert!(macros.iter().any(|m| {
        m.name == "API_EXPR"
            && !m.function_like
            && m.kind == MacroKind::Expression
            && m.category == MacroCategory::BindableConstant
            && m.value.is_none()
    }));
    assert!(macros.iter().any(|m| {
        m.name == "HAVE_ZLIB"
            && !m.function_like
            && m.form == MacroForm::ObjectLike
            && m.category == MacroCategory::ConfigurationFlag
            && m.value == Some(MacroValue::Integer(1))
    }));
    assert!(macros.iter().any(|m| {
        m.name == "API_EXPORT"
            && m.form == MacroForm::ObjectLike
            && m.category == MacroCategory::AbiAffecting
            && m.value.is_none()
    }));
    assert!(macros.iter().any(|m| {
        m.name == "LOG"
            && m.function_like
            && m.form == MacroForm::FunctionLike
            && m.kind == MacroKind::Other
            && m.category == MacroCategory::Unsupported
            && m.value.is_none()
    }));
}

#[test]
fn parse_macro_regression_fixture_preserves_real_library_style_macros() {
    let macros = parse_macro_definitions(MACRO_REGRESSION_FIXTURE);

    assert!(macros.iter().any(|m| {
        m.name == "ZLIB_VERSION"
            && m.category == MacroCategory::BindableConstant
            && m.value == Some(MacroValue::String("1.3.1".into()))
    }));
    assert!(macros.iter().any(|m| {
        m.name == "PNG_LIBPNG_VER_STRING"
            && m.category == MacroCategory::BindableConstant
            && m.value == Some(MacroValue::String("1.6.43".into()))
    }));
    assert!(macros.iter().any(|m| {
        m.name == "PNG_SETJMP_SUPPORTED"
            && m.category == MacroCategory::ConfigurationFlag
            && m.value == Some(MacroValue::Integer(1))
    }));
    assert!(macros.iter().any(|m| {
        m.name == "PNGAPI"
            && m.category == MacroCategory::AbiAffecting
            && m.form == MacroForm::ObjectLike
    }));
    assert!(macros.iter().any(|m| {
        m.name == "PNG_UNUSED"
            && m.category == MacroCategory::Unsupported
            && m.form == MacroForm::FunctionLike
    }));
}

#[test]
fn parse_macro_definitions_with_provenance_tracks_locations() {
    let source = "# 3 \"demo.h\"\n#define API_LEVEL 7\n#define API_NAME \"demo\"\n";
    let (macros, provenance) = parse_macro_definitions_with_provenance(source, &["demo.h"]);
    assert_eq!(macros.len(), 2);
    assert_eq!(provenance.len(), 2);
    assert_eq!(provenance[0].macro_name, "API_LEVEL");
    assert_eq!(provenance[0].source_origin, Some(SourceOrigin::Entry));
    assert_eq!(
        provenance[0].source_location.as_ref().and_then(|loc| loc.line),
        Some(3)
    );
}

