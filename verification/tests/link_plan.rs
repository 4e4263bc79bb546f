#![allow(unused_imports)]
use linc::ir::{BindingPackage, LinkInput, LinkResolutionMode, NativeSurfaceKind};
use linc::link_plan::{
    resolve_link_plan, resolve_link_plan_for_target, resolve_link_plan_with_inventories,
    ProviderMatchKind, ProviderProvenance, RequirementResolution, ResolvedLinkPlan,
};
use linc::symbols::SymbolInventory;
use linc::ir::{
    BindingLinkSurface, LinkArtifact, LinkArtifactKind, LinkFramework, LinkLibrary,
    LinkLibraryKind, LinkRequirementSource,
};
use linc::symbols::{ArtifactCapabilities, ArtifactFormat, ArtifactKind, ArtifactPlatform};

#[test]
fn resolve_link_plan_preserves_declared_order() {
    let mut package = BindingPackage::new();
    package.link = BindingLinkSurface {
        preferred_mode: LinkResolutionMode::PreferDynamic,
        native_surface_kind: NativeSurfaceKind::Mixed,
        platform_constraints: vec!["linux".into()],
        ordered_inputs: vec![
            LinkInput::Library(LinkLibrary {
                name: "z".into(),
                kind: LinkLibraryKind::Default,
                source: LinkRequirementSource::Declared,
            }),
            LinkInput::Framework(LinkFramework {
                name: "CoreFoundation".into(),
                source: LinkRequirementSource::Declared,
            }),
        ],
        ..BindingLinkSurface::default()
    };

    let plan = resolve_link_plan(&package);
    assert_eq!(plan.preferred_mode, LinkResolutionMode::PreferDynamic);
    assert_eq!(plan.native_surface_kind, NativeSurfaceKind::Mixed);
    assert_eq!(plan.platform_constraints, vec!["linux".to_string()]);
    assert_eq!(plan.inputs, package.link.ordered_inputs);
    assert_eq!(plan.requirements.len(), 2);
    assert!(plan.requirements.iter().all(|req| req.providers.is_empty()));
    assert!(plan.transitive_dependencies.is_empty());
    assert!(plan
        .requirements
        .iter()
        .all(|req| req.source == LinkRequirementSource::Declared));
    assert!(plan
        .requirements
        .iter()
        .all(|req| req.resolution == RequirementResolution::Unresolved));
}

#[test]
fn resolve_link_plan_with_inventories_separates_requirements_and_providers() {
    let mut package = BindingPackage::new();
    package.link = BindingLinkSurface {
        ordered_inputs: vec![
            LinkInput::Library(LinkLibrary {
                name: "z".into(),
                kind: LinkLibraryKind::Default,
                source: LinkRequirementSource::Declared,
            }),
            LinkInput::Artifact(LinkArtifact {
                path: "/tmp/libdemo.a".into(),
                kind: LinkArtifactKind::StaticLibrary,
                source: LinkRequirementSource::Declared,
            }),
        ],
        ..BindingLinkSurface::default()
    };
    let inventories = vec![
        SymbolInventory {
            artifact_path: "/usr/lib/libz.so".into(),
            format: ArtifactFormat::ElfSharedLibrary,
            platform: ArtifactPlatform::Elf,
            kind: ArtifactKind::SharedLibrary,
            capabilities: ArtifactCapabilities {
                exports_symbols: true,
                imports_symbols: true,
            },
            dependency_edges: vec!["libc.so.6".into()],
            symbols: Vec::new(),
        },
        SymbolInventory {
            artifact_path: "/tmp/libdemo.a".into(),
            format: ArtifactFormat::ElfStaticLibrary,
            platform: ArtifactPlatform::Elf,
            kind: ArtifactKind::StaticLibrary,
            capabilities: ArtifactCapabilities {
                exports_symbols: true,
                imports_symbols: false,
            },
            dependency_edges: Vec::new(),
            symbols: Vec::new(),
        },
    ];

    let plan = resolve_link_plan_with_inventories(&package, &inventories);
    assert_eq!(plan.requirements.len(), 2);
    assert_eq!(plan.requirements[0].providers.len(), 1);
    assert_eq!(plan.requirements[0].source, LinkRequirementSource::Declared);
    assert_eq!(
        plan.requirements[0].resolution,
        RequirementResolution::Resolved
    );
    assert_eq!(
        plan.requirements[0].providers[0].match_kind,
        ProviderMatchKind::LibraryName
    );
    assert_eq!(
        plan.requirements[0].providers[0].provenance,
        ProviderProvenance::DiscoveredInventory
    );
    assert_eq!(
        plan.requirements[0].providers[0].dependency_edges,
        vec!["libc.so.6".to_string()]
    );
    assert_eq!(plan.requirements[1].providers.len(), 1);
    assert_eq!(
        plan.requirements[1].resolution,
        RequirementResolution::Resolved
    );
    assert_eq!(
        plan.requirements[1].providers[0].provenance,
        ProviderProvenance::DeclaredArtifact
    );
    assert_eq!(
        plan.requirements[1].providers[0].match_kind,
        ProviderMatchKind::ExactArtifact
    );
    assert_eq!(plan.transitive_dependencies, vec!["libc.so.6".to_string()]);
}

#[test]
fn resolve_link_plan_marks_ambiguous_requirements() {
    let mut package = BindingPackage::new();
    package.link = BindingLinkSurface {
        ordered_inputs: vec![LinkInput::Library(LinkLibrary {
            name: "z".into(),
            kind: LinkLibraryKind::Default,
            source: LinkRequirementSource::Declared,
        })],
        ..BindingLinkSurface::default()
    };
    let inventories = vec![
        SymbolInventory {
            artifact_path: "/usr/lib/libz.so".into(),
            format: ArtifactFormat::ElfSharedLibrary,
            platform: ArtifactPlatform::Elf,
            kind: ArtifactKind::SharedLibrary,
            capabilities: ArtifactCapabilities {
                exports_symbols: true,
                imports_symbols: true,
            },
            dependency_edges: Vec::new(),
            symbols: Vec::new(),
        },
        SymbolInventory {
            artifact_path: "/opt/lib/libz.a".into(),
            format: ArtifactFormat::ElfStaticLibrary,
            platform: ArtifactPlatform::Elf,
            kind: ArtifactKind::StaticLibrary,
            capabilities: ArtifactCapabilities {
                exports_symbols: true,
                imports_symbols: false,
            },
            dependency_edges: Vec::new(),
            symbols: Vec::new(),
        },
    ];

    let plan = resolve_link_plan_with_inventories(&package, &inventories);
    assert_eq!(
        plan.requirements[0].resolution,
        RequirementResolution::Ambiguous
    );
    assert_eq!(plan.requirements[0].providers.len(), 2);
}

#[test]
fn resolve_link_plan_for_target_filters_non_matching_constraints() {
    let mut package = BindingPackage::new();
    package.link = BindingLinkSurface {
        platform_constraints: vec!["linux".into()],
        ordered_inputs: vec![LinkInput::Library(LinkLibrary {
            name: "z".into(),
            kind: LinkLibraryKind::Default,
            source: LinkRequirementSource::Declared,
        })],
        ..BindingLinkSurface::default()
    };

    let matching =
        resolve_link_plan_for_target(&package, &[], Some("x86_64-unknown-linux-gnu"));
    assert_eq!(matching.inputs.len(), 1);
    assert_eq!(matching.requirements.len(), 1);
    assert_eq!(matching.platform_constraints, vec!["linux".to_string()]);

    let non_matching = resolve_link_plan_for_target(&package, &[], Some("x86_64-apple-darwin"));
    assert!(non_matching.inputs.is_empty());
    assert!(non_matching.requirements.is_empty());
    assert!(non_matching.platform_constraints.is_empty());
}

#[test]
fn resolve_link_plan_matches_versioned_shared_library_filenames() {
    let mut package = BindingPackage::new();
    package.link = BindingLinkSurface {
        ordered_inputs: vec![LinkInput::Library(LinkLibrary {
            name: "ssl".into(),
            kind: LinkLibraryKind::Default,
            source: LinkRequirementSource::Declared,
        })],
        ..BindingLinkSurface::default()
    };
    let inventories = vec![SymbolInventory {
        artifact_path: "/usr/lib/x86_64-linux-gnu/libssl.so.3".into(),
        format: ArtifactFormat::ElfSharedLibrary,
        platform: ArtifactPlatform::Elf,
        kind: ArtifactKind::SharedLibrary,
        capabilities: ArtifactCapabilities {
            exports_symbols: true,
            imports_symbols: true,
        },
        dependency_edges: vec!["libcrypto.so.3".into()],
        symbols: Vec::new(),
    }];

    let plan = resolve_link_plan_with_inventories(&package, &inventories);
    assert_eq!(plan.requirements.len(), 1);
    assert_eq!(
        plan.requirements[0].resolution,
        RequirementResolution::Resolved
    );
    assert_eq!(plan.requirements[0].providers.len(), 1);
    assert_eq!(
        plan.requirements[0].providers[0].artifact_path,
        "/usr/lib/x86_64-linux-gnu/libssl.so.3"
    );
    assert_eq!(
        plan.transitive_dependencies,
        vec!["libcrypto.so.3".to_string()]
    );
}

#[test]
fn resolve_link_plan_matches_macos_text_stub_library_names() {
    let mut package = BindingPackage::new();
    package
        .link
        .ordered_inputs
        .push(LinkInput::Library(LinkLibrary {
            name: "System".into(),
            kind: LinkLibraryKind::Default,
            source: LinkRequirementSource::Declared,
        }));

    let inventories = vec![SymbolInventory {
        artifact_path: "/usr/lib/libSystem.tbd".into(),
        format: ArtifactFormat::MachODylib,
        platform: ArtifactPlatform::MachO,
        kind: ArtifactKind::SharedLibrary,
        capabilities: ArtifactCapabilities {
            exports_symbols: true,
            imports_symbols: true,
        },
        dependency_edges: vec!["/usr/lib/libc++.1.dylib".into()],
        symbols: Vec::new(),
    }];

    let plan = resolve_link_plan_with_inventories(&package, &inventories);
    assert_eq!(plan.requirements.len(), 1);
    assert_eq!(
        plan.requirements[0].resolution,
        RequirementResolution::Resolved
    );
    assert_eq!(plan.requirements[0].providers.len(), 1);
    assert_eq!(
        plan.requirements[0].providers[0].artifact_path,
        "/usr/lib/libSystem.tbd"
    );
    assert_eq!(
        plan.transitive_dependencies,
        vec!["/usr/lib/libc++.1.dylib".to_string()]
    );
}

#[test]
fn resolve_link_plan_reports_unresolved_when_no_inventory_matches() {
    let mut package = BindingPackage::new();
    package
        .link
        .ordered_inputs
        .push(LinkInput::Library(LinkLibrary {
            name: "missing".into(),
            kind: LinkLibraryKind::Default,
            source: LinkRequirementSource::Declared,
        }));

    let plan = resolve_link_plan_with_inventories(&package, &[]);
    assert_eq!(plan.requirements.len(), 1);
    assert_eq!(
        plan.requirements[0].resolution,
        RequirementResolution::Unresolved
    );
    assert!(plan.requirements[0].providers.is_empty());
}

#[test]
fn resolve_link_plan_reports_ambiguous_when_multiple_inventories_match() {
    let mut package = BindingPackage::new();
    package
        .link
        .ordered_inputs
        .push(LinkInput::Library(LinkLibrary {
            name: "z".into(),
            kind: LinkLibraryKind::Default,
            source: LinkRequirementSource::Declared,
        }));

    let inventories = vec![
        SymbolInventory {
            artifact_path: "/usr/lib/libz.so".into(),
            format: ArtifactFormat::ElfSharedLibrary,
            platform: ArtifactPlatform::Elf,
            kind: ArtifactKind::SharedLibrary,
            capabilities: ArtifactCapabilities {
                exports_symbols: true,
                imports_symbols: false,
            },
            dependency_edges: Vec::new(),
            symbols: Vec::new(),
        },
        SymbolInventory {
            artifact_path: "/opt/lib/libz.a".into(),
            format: ArtifactFormat::ElfStaticLibrary,
            platform: ArtifactPlatform::Elf,
            kind: ArtifactKind::StaticLibrary,
            capabilities: ArtifactCapabilities {
                exports_symbols: true,
                imports_symbols: false,
            },
            dependency_edges: Vec::new(),
            symbols: Vec::new(),
        },
    ];

    let plan = resolve_link_plan_with_inventories(&package, &inventories);
    assert_eq!(plan.requirements.len(), 1);
    assert_eq!(
        plan.requirements[0].resolution,
        RequirementResolution::Ambiguous
    );
    assert_eq!(plan.requirements[0].providers.len(), 2);
}

#[test]
fn resolve_link_plan_concrete_artifact_matches_declared_path() {
    let mut package = BindingPackage::new();
    package
        .link
        .ordered_inputs
        .push(LinkInput::Artifact(LinkArtifact {
            path: "/build/libvendor.a".into(),
            kind: LinkArtifactKind::StaticLibrary,
            source: LinkRequirementSource::Declared,
        }));

    let inventories = vec![SymbolInventory {
        artifact_path: "/build/libvendor.a".into(),
        format: ArtifactFormat::ElfStaticLibrary,
        platform: ArtifactPlatform::Elf,
        kind: ArtifactKind::StaticLibrary,
        capabilities: ArtifactCapabilities {
            exports_symbols: true,
            imports_symbols: false,
        },
        dependency_edges: Vec::new(),
        symbols: Vec::new(),
    }];

    let plan = resolve_link_plan_with_inventories(&package, &inventories);
    assert_eq!(plan.requirements.len(), 1);
    assert_eq!(
        plan.requirements[0].resolution,
        RequirementResolution::Resolved
    );
    assert_eq!(
        plan.requirements[0].providers[0].match_kind,
        ProviderMatchKind::ExactArtifact
    );
}
