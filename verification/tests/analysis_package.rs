use linc::analysis::LinkAnalysisPackage;
use linc::ir::BindingPackage;
use linc::SCHEMA_VERSION;
use linc::ir::{
    BindingItem, FunctionBinding, LinkArtifact, LinkArtifactKind, LinkInput, LinkLibrary,
    LinkLibraryKind, LinkRequirementSource, ParameterBinding, CallingConvention, BindingType,
};

fn sample_binding_package() -> BindingPackage {
    let mut package = BindingPackage::new();
    package
        .items
        .push(BindingItem::Function(FunctionBinding {
            name: "demo_open".into(),
            calling_convention: CallingConvention::C,
            parameters: vec![ParameterBinding {
                name: Some("flags".into()),
                ty: BindingType::Int,
            }],
            return_type: BindingType::Int,
            variadic: false,
            source_offset: None,
        }));
    package.link.ordered_inputs.push(LinkInput::Library(LinkLibrary {
        name: "demo".into(),
        kind: LinkLibraryKind::Default,
        source: LinkRequirementSource::Declared,
    }));
    package.link.ordered_inputs.push(LinkInput::Artifact(LinkArtifact {
        path: "/tmp/libdemo.so".into(),
        kind: LinkArtifactKind::SharedLibrary,
        source: LinkRequirementSource::Discovered,
    }));
    package
}

#[test]
fn default_analysis_package_is_empty() {
    let analysis = LinkAnalysisPackage::new();
    assert_eq!(analysis.schema_version, SCHEMA_VERSION);
    assert!(analysis.resolved_link_plan.is_none());
    assert!(analysis.diagnostics.is_empty());
    assert!(analysis.declared_link_surface.ordered_inputs.is_empty());
}

#[test]
fn analysis_package_from_binding_package_carries_link_contract() {
    let package = sample_binding_package();
    let analysis = LinkAnalysisPackage::from_binding_package(&package);

    assert_eq!(analysis.inputs, package.inputs);
    assert_eq!(analysis.target, package.target);
    assert_eq!(analysis.declared_link_surface, package.link);
    assert_eq!(
        analysis
            .resolved_link_plan
            .as_ref()
            .expect("resolved plan")
            .inputs,
        package.link.ordered_inputs
    );
}

