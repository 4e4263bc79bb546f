#![allow(unused_imports)]
use linc::ir::{
    AbiConfidence, AliasResolution,
    BindingItem, BindingLinkSurface, BindingPackage, BindingType, CallingConvention, EnumBinding,
    EnumRepresentation, EnumVariant, FieldBinding, FunctionBinding, LinkArtifact, LinkArtifactKind,
    LinkInput, LinkLibrary, LinkLibraryKind, LinkRequirementSource, ParameterBinding,
    RecordBinding, RecordKind, RecordRepresentation, TypeAliasBinding, TypeLayout, VariableBinding,
};
use linc::symbols::{
    ArtifactCapabilities, ArtifactFormat, ArtifactKind, ArtifactPlatform, FunctionAbiHint,
    SymbolBinding, SymbolDirection, SymbolEntry, SymbolInventory, SymbolVisibility,
};
use linc::validate::{
    normalize_decorated_name, validate, validate_many, AbiShapeEvidence, EvidenceKind, ItemKind,
    MatchConfidence, MatchStatus, RoutineAbiConfidence, RoutineAbiEvidence,
    RoutineAbiEvidenceKind, SymbolMatch, ValidationDeclaration, ValidationEntry,
    ValidationEvidence, ValidationPhase, ValidationPhaseReport, ValidationReport,
    ValidationSummary,
};
fn make_inventory_with_vis(entries: &[(&str, bool, SymbolVisibility)]) -> SymbolInventory {
    let symbols = entries
        .iter()
        .map(|(name, is_func, vis)| SymbolEntry {
            name: name.to_string(),
            raw_name: None,
            version: None,
            direction: SymbolDirection::Exported,
            reexported_via: Vec::new(),
            alias_of: None,
            visibility: vis.clone(),
            is_function: *is_func,
            binding: SymbolBinding::Global,
            size: None,
            section: None,
            archive_member: None,
            function_abi: None,
        })
        .collect();
    SymbolInventory {
        artifact_path: "test.o".into(),
        format: ArtifactFormat::ElfObject,
        platform: ArtifactPlatform::Elf,
        kind: ArtifactKind::Object,
        capabilities: ArtifactCapabilities {
            exports_symbols: true,
            imports_symbols: false,
        },
        dependency_edges: Vec::new(),
        symbols,
    }
}

fn make_inventory(funcs: &[&str], data: &[&str]) -> SymbolInventory {
    let mut entries: Vec<(&str, bool, SymbolVisibility)> = Vec::new();
    for name in funcs {
        entries.push((name, true, SymbolVisibility::Default));
    }
    for name in data {
        entries.push((name, false, SymbolVisibility::Default));
    }
    make_inventory_with_vis(&entries)
}

fn make_package(func_names: &[&str]) -> BindingPackage {
    let items = func_names
        .iter()
        .map(|name| {
            BindingItem::Function(FunctionBinding {
                name: name.to_string(),
                calling_convention: CallingConvention::C,
                parameters: Vec::new(),
                return_type: BindingType::Void,
                variadic: false,
                source_offset: None,
            })
        })
        .collect();
    BindingPackage {
        source_path: None,
        items,
        diagnostics: Vec::new(),
        ..BindingPackage::new()
    }
}

fn make_package_with_vars(func_names: &[&str], var_names: &[&str]) -> BindingPackage {
    let mut items: Vec<BindingItem> = func_names
        .iter()
        .map(|name| {
            BindingItem::Function(FunctionBinding {
                name: name.to_string(),
                calling_convention: CallingConvention::C,
                parameters: Vec::new(),
                return_type: BindingType::Void,
                variadic: false,
                source_offset: None,
            })
        })
        .collect();
    for name in var_names {
        items.push(BindingItem::Variable(VariableBinding {
            name: name.to_string(),
            ty: BindingType::Int,
            source_offset: None,
        }));
    }
    BindingPackage {
        source_path: None,
        items,
        diagnostics: Vec::new(),
        ..BindingPackage::new()
    }
}

#[test]
fn all_functions_matched() {
    let inv = make_inventory(&["foo", "bar"], &[]);
    let pkg = make_package(&["foo", "bar"]);
    let report = validate(&pkg, &inv);
    assert!(report.all_matched());
    assert_eq!(report.matched().len(), 2);
    assert_eq!(report.missing().len(), 0);
}

#[test]
fn some_functions_missing() {
    let inv = make_inventory(&["foo"], &[]);
    let pkg = make_package(&["foo", "bar", "baz"]);
    let report = validate(&pkg, &inv);
    assert!(!report.all_matched());
    assert_eq!(report.matched().len(), 1);
    assert_eq!(report.missing().len(), 2);
}

#[test]
fn missing_symbol_with_declared_link_inputs_is_distinguished() {
    let inv = make_inventory(&[], &[]);
    let mut pkg = make_package(&["foo"]);
    pkg.link.libraries.push(LinkLibrary {
        name: "demo".into(),
        kind: LinkLibraryKind::Default,
        source: LinkRequirementSource::Declared,
    });
    pkg.link
        .ordered_inputs
        .push(LinkInput::Library(LinkLibrary {
            name: "demo".into(),
            kind: LinkLibraryKind::Default,
            source: LinkRequirementSource::Declared,
        }));

    let report = validate(&pkg, &inv);
    assert_eq!(report.matches.len(), 1);
    assert_eq!(
        report.matches[0].status,
        MatchStatus::UnresolvedDeclaredLinkInputs
    );
}

#[test]
fn decorated_symbol_is_reported_as_decoration_mismatch() {
    let pkg = make_package(&["foo"]);
    let inv = SymbolInventory {
        artifact_path: "decorated.o".into(),
        format: ArtifactFormat::ElfObject,
        platform: ArtifactPlatform::Elf,
        kind: ArtifactKind::Object,
        capabilities: ArtifactCapabilities {
            exports_symbols: true,
            imports_symbols: false,
        },
        dependency_edges: Vec::new(),
        symbols: vec![SymbolEntry {
            name: "_foo".into(),
            raw_name: Some("_foo".into()),
            version: None,
            direction: SymbolDirection::Exported,
            reexported_via: Vec::new(),
            alias_of: None,
            visibility: SymbolVisibility::Default,
            is_function: true,
            binding: SymbolBinding::Global,
            size: None,
            section: None,
            archive_member: None,
            function_abi: None,
        }],
    };

    let report = validate(&pkg, &inv);
    assert_eq!(report.matches.len(), 1);
    assert_eq!(report.matches[0].status, MatchStatus::DecorationMismatch);
}

#[test]
fn symbol_exists_but_not_function() {
    let inv = make_inventory(&[], &["data_sym"]);
    let pkg = make_package(&["data_sym"]);
    let report = validate(&pkg, &inv);
    assert!(!report.all_matched());
    assert_eq!(report.matches[0].status, MatchStatus::NotAFunction);
}

#[test]
fn imported_symbol_does_not_count_as_provider_match() {
    let pkg = make_package(&["puts"]);
    let inv = SymbolInventory {
        artifact_path: "libdemo.so".into(),
        format: ArtifactFormat::ElfSharedLibrary,
        platform: ArtifactPlatform::Elf,
        kind: ArtifactKind::SharedLibrary,
        capabilities: ArtifactCapabilities {
            exports_symbols: true,
            imports_symbols: true,
        },
        dependency_edges: vec!["libc.so.6".into()],
        symbols: vec![SymbolEntry {
            name: "puts".into(),
            raw_name: Some("puts".into()),
            version: Some("GLIBC_2.2.5".into()),
            direction: SymbolDirection::Imported,
            reexported_via: vec!["libc.so.6".into()],
            alias_of: None,
            visibility: SymbolVisibility::Default,
            is_function: true,
            binding: SymbolBinding::Global,
            size: None,
            section: None,
            archive_member: None,
            function_abi: None,
        }],
    };

    let report = validate(&pkg, &inv);
    assert_eq!(report.matches[0].status, MatchStatus::Missing);
    assert_eq!(
        report.matches[0].evidence_kind,
        EvidenceKind::ReexportedCandidate
    );
}

#[test]
fn empty_package() {
    let inv = make_inventory(&["foo"], &[]);
    let pkg = make_package(&[]);
    let report = validate(&pkg, &inv);
    assert!(report.all_matched()); // vacuously true
    assert_eq!(report.matches.len(), 0);
}

#[test]
fn non_function_items_ignored() {
    let inv = make_inventory(&["foo"], &[]);
    let mut pkg = make_package(&["foo"]);
    pkg.items.push(BindingItem::TypeAlias(TypeAliasBinding {
        name: "my_type".into(),
        target: BindingType::Int,
        canonical_resolution: None,
        abi_confidence: None,
        source_offset: None,
    }));
    let report = validate(&pkg, &inv);
    assert_eq!(report.matches.len(), 1); // only the function
    assert!(report.all_matched());
}

#[test]
fn report_exposes_validation_phases() {
    let inv = make_inventory(&["foo"], &[]);
    let pkg = make_package(&["foo"]);
    let report = validate(&pkg, &inv);
    assert_eq!(
        report.phases,
        vec![
            ValidationPhaseReport {
                phase: ValidationPhase::ProviderDiscovery,
                completed: true,
            },
            ValidationPhaseReport {
                phase: ValidationPhase::SymbolIdentity,
                completed: true,
            },
            ValidationPhaseReport {
                phase: ValidationPhase::AbiEvidence,
                completed: false,
            },
        ]
    );
}

#[test]
fn report_entries_preserve_richer_validation_evidence() {
    let pkg = make_package(&["foo"]);
    let inv = SymbolInventory {
        artifact_path: "decorated.o".into(),
        format: ArtifactFormat::ElfObject,
        platform: ArtifactPlatform::Elf,
        kind: ArtifactKind::Object,
        capabilities: ArtifactCapabilities {
            exports_symbols: true,
            imports_symbols: false,
        },
        dependency_edges: Vec::new(),
        symbols: vec![SymbolEntry {
            name: "foo".into(),
            raw_name: Some("_foo".into()),
            version: None,
            direction: SymbolDirection::Exported,
            reexported_via: Vec::new(),
            alias_of: None,
            visibility: SymbolVisibility::Default,
            is_function: true,
            binding: SymbolBinding::Global,
            size: None,
            section: None,
            archive_member: None,
            function_abi: None,
        }],
    };

    let report = validate(&pkg, &inv);
    assert_eq!(report.entries.len(), 1);
    assert_eq!(report.entries[0].declaration.name, "foo");
    assert_eq!(
        report.entries[0].evidence.provider_artifacts,
        vec!["decorated.o"]
    );
    assert_eq!(report.entries[0].evidence.raw_symbol_names, vec!["_foo"]);
    assert_eq!(
        report.entries[0].evidence.visibility,
        Some(SymbolVisibility::Default)
    );
    assert_eq!(report.entries[0].evidence.confidence, MatchConfidence::High);
    assert_eq!(report.matches[0].confidence, MatchConfidence::High);
    assert_eq!(
        report.entries[0].evidence.evidence_kind,
        EvidenceKind::ExactExported
    );
    assert_eq!(report.matches[0].evidence_kind, EvidenceKind::ExactExported);
}

#[test]
fn weak_matches_are_marked_with_medium_confidence() {
    let inv = SymbolInventory {
        artifact_path: "test.o".into(),
        format: ArtifactFormat::ElfObject,
        platform: ArtifactPlatform::Elf,
        kind: ArtifactKind::Object,
        capabilities: ArtifactCapabilities {
            exports_symbols: true,
            imports_symbols: false,
        },
        dependency_edges: Vec::new(),
        symbols: vec![SymbolEntry {
            name: "foo".into(),
            raw_name: None,
            version: None,
            direction: SymbolDirection::Exported,
            reexported_via: Vec::new(),
            alias_of: None,
            visibility: SymbolVisibility::Default,
            is_function: true,
            binding: SymbolBinding::Weak,
            size: None,
            section: None,
            archive_member: None,
            function_abi: None,
        }],
    };
    let pkg = make_package(&["foo"]);
    let report = validate(&pkg, &inv);
    assert_eq!(report.matches[0].confidence, MatchConfidence::Medium);
    assert_eq!(
        report.entries[0].evidence.confidence,
        MatchConfidence::Medium
    );
    assert_eq!(report.matches[0].evidence_kind, EvidenceKind::WeakExported);
}

#[test]
fn unresolved_declared_inputs_with_dependency_edges_are_marked_as_reexport_candidates() {
    let mut pkg = make_package(&["foo"]);
    pkg.link.libraries.push(LinkLibrary {
        name: "demo".into(),
        kind: LinkLibraryKind::Default,
        source: LinkRequirementSource::Declared,
    });

    let inv = SymbolInventory {
        artifact_path: "libdemo.so".into(),
        format: ArtifactFormat::ElfSharedLibrary,
        platform: ArtifactPlatform::Elf,
        kind: ArtifactKind::SharedLibrary,
        capabilities: ArtifactCapabilities {
            exports_symbols: true,
            imports_symbols: true,
        },
        dependency_edges: vec!["libc.so.6".into()],
        symbols: Vec::new(),
    };

    let report = validate(&pkg, &inv);
    assert_eq!(
        report.matches[0].status,
        MatchStatus::UnresolvedDeclaredLinkInputs
    );
    assert_eq!(
        report.matches[0].evidence_kind,
        EvidenceKind::ReexportedCandidate
    );
}

#[test]
fn symbol_specific_imported_candidate_marks_unresolved_as_reexported() {
    let mut pkg = make_package(&["foo"]);
    pkg.link.libraries.push(LinkLibrary {
        name: "demo".into(),
        kind: LinkLibraryKind::Default,
        source: LinkRequirementSource::Declared,
    });

    let inv = SymbolInventory {
        artifact_path: "libdemo.so".into(),
        format: ArtifactFormat::ElfSharedLibrary,
        platform: ArtifactPlatform::Elf,
        kind: ArtifactKind::SharedLibrary,
        capabilities: ArtifactCapabilities {
            exports_symbols: true,
            imports_symbols: true,
        },
        dependency_edges: vec!["libdep.so".into()],
        symbols: vec![SymbolEntry {
            name: "foo".into(),
            raw_name: Some("foo".into()),
            version: None,
            direction: SymbolDirection::Imported,
            reexported_via: vec!["libdep.so".into()],
            alias_of: None,
            visibility: SymbolVisibility::Default,
            is_function: true,
            binding: SymbolBinding::Global,
            size: None,
            section: None,
            archive_member: None,
            function_abi: None,
        }],
    };

    let report = validate(&pkg, &inv);
    assert_eq!(
        report.matches[0].status,
        MatchStatus::UnresolvedDeclaredLinkInputs
    );
    assert_eq!(
        report.matches[0].evidence_kind,
        EvidenceKind::ReexportedCandidate
    );
    assert_eq!(report.entries[0].evidence.raw_symbol_names, vec!["foo"]);
}

#[test]
fn report_summary_and_query_helpers_track_statuses() {
    let pkg = make_package(&["foo", "bar", "baz"]);
    let inv = SymbolInventory {
        artifact_path: "test.o".into(),
        format: ArtifactFormat::ElfObject,
        platform: ArtifactPlatform::Elf,
        kind: ArtifactKind::Object,
        capabilities: ArtifactCapabilities {
            exports_symbols: true,
            imports_symbols: false,
        },
        dependency_edges: Vec::new(),
        symbols: vec![
            SymbolEntry {
                name: "foo".into(),
                raw_name: None,
                version: None,
                direction: SymbolDirection::Exported,
                reexported_via: Vec::new(),
                alias_of: None,
                visibility: SymbolVisibility::Default,
                is_function: true,
                binding: SymbolBinding::Global,
                size: None,
                section: None,
                archive_member: None,
                function_abi: None,
            },
            SymbolEntry {
                name: "bar".into(),
                raw_name: None,
                version: None,
                direction: SymbolDirection::Exported,
                reexported_via: Vec::new(),
                alias_of: None,
                visibility: SymbolVisibility::Default,
                is_function: true,
                binding: SymbolBinding::Weak,
                size: None,
                section: None,
                archive_member: None,
                function_abi: None,
            },
        ],
    };

    let report = validate(&pkg, &inv);
    assert_eq!(report.summary.total, 3);
    assert_eq!(report.summary.matched, 1);
    assert_eq!(report.summary.weak_matches, 1);
    assert_eq!(report.summary.missing, 1);
    assert_eq!(report.weak_matches().len(), 1);
    assert_eq!(report.unresolved_declared().len(), 0);
    assert_eq!(report.duplicate_providers().len(), 0);
}

#[test]
fn validate_many_collects_provider_artifacts() {
    let pkg = make_package(&["foo", "bar"]);
    let inv1 = make_inventory(&["foo"], &[]);
    let inv2 = SymbolInventory {
        artifact_path: "libbar.a".into(),
        format: ArtifactFormat::ElfStaticLibrary,
        platform: ArtifactPlatform::Elf,
        kind: ArtifactKind::StaticLibrary,
        capabilities: ArtifactCapabilities {
            exports_symbols: true,
            imports_symbols: false,
        },
        dependency_edges: Vec::new(),
        symbols: vec![SymbolEntry {
            name: "bar".into(),
            raw_name: Some("bar".into()),
            version: None,
            direction: SymbolDirection::Exported,
            reexported_via: Vec::new(),
            alias_of: None,
            visibility: SymbolVisibility::Default,
            is_function: true,
            binding: SymbolBinding::Global,
            size: None,
            section: None,
            archive_member: Some("bar.o".into()),
            function_abi: None,
        }],
    };

    let report = validate_many(&pkg, &[inv1, inv2]);
    assert_eq!(report.matches.len(), 2);
    let foo = report
        .matches
        .iter()
        .find(|entry| entry.name == "foo")
        .unwrap();
    let bar = report
        .matches
        .iter()
        .find(|entry| entry.name == "bar")
        .unwrap();
    assert_eq!(foo.status, MatchStatus::Matched);
    assert_eq!(foo.provider_artifacts, vec!["test.o".to_string()]);
    assert_eq!(bar.status, MatchStatus::Matched);
    assert_eq!(bar.provider_artifacts, vec!["libbar.a:bar.o".to_string()]);
}

#[test]
fn validate_many_reports_duplicate_providers() {
    let pkg = make_package(&["foo"]);
    let inv1 = SymbolInventory {
        artifact_path: "libfoo_one.a".into(),
        format: ArtifactFormat::ElfStaticLibrary,
        platform: ArtifactPlatform::Elf,
        kind: ArtifactKind::StaticLibrary,
        capabilities: ArtifactCapabilities {
            exports_symbols: true,
            imports_symbols: false,
        },
        dependency_edges: Vec::new(),
        symbols: vec![SymbolEntry {
            name: "foo".into(),
            raw_name: Some("foo".into()),
            version: None,
            direction: SymbolDirection::Exported,
            reexported_via: Vec::new(),
            alias_of: None,
            visibility: SymbolVisibility::Default,
            is_function: true,
            binding: SymbolBinding::Global,
            size: None,
            section: None,
            archive_member: Some("foo1.o".into()),
            function_abi: None,
        }],
    };
    let inv2 = SymbolInventory {
        artifact_path: "libfoo_two.a".into(),
        format: ArtifactFormat::ElfStaticLibrary,
        platform: ArtifactPlatform::Elf,
        kind: ArtifactKind::StaticLibrary,
        capabilities: ArtifactCapabilities {
            exports_symbols: true,
            imports_symbols: false,
        },
        dependency_edges: Vec::new(),
        symbols: vec![SymbolEntry {
            name: "foo".into(),
            raw_name: Some("foo".into()),
            version: None,
            direction: SymbolDirection::Exported,
            reexported_via: Vec::new(),
            alias_of: None,
            visibility: SymbolVisibility::Default,
            is_function: true,
            binding: SymbolBinding::Global,
            size: None,
            section: None,
            archive_member: Some("foo2.o".into()),
            function_abi: None,
        }],
    };

    let report = validate_many(&pkg, &[inv1, inv2]);
    assert_eq!(report.matches.len(), 1);
    let foo = &report.matches[0];
    assert_eq!(foo.status, MatchStatus::DuplicateProviders);
    assert_eq!(
        foo.provider_artifacts,
        vec![
            "libfoo_one.a:foo1.o".to_string(),
            "libfoo_two.a:foo2.o".to_string()
        ]
    );
}

// --- Phase 12 tests ---

#[test]
fn variable_matched() {
    let inv = make_inventory(&[], &["errno"]);
    let pkg = make_package_with_vars(&[], &["errno"]);
    let report = validate(&pkg, &inv);
    assert!(report.all_matched());
    assert_eq!(report.matched().len(), 1);
    assert_eq!(report.matches[0].item_kind, ItemKind::Variable);
}

#[test]
fn variable_missing() {
    let inv = make_inventory(&[], &[]);
    let pkg = make_package_with_vars(&[], &["errno"]);
    let report = validate(&pkg, &inv);
    assert!(!report.all_matched());
    assert_eq!(report.missing().len(), 1);
    assert_eq!(report.missing()[0].item_kind, ItemKind::Variable);
}

#[test]
fn variable_name_is_function() {
    let inv = make_inventory(&["errno"], &[]);
    let pkg = make_package_with_vars(&[], &["errno"]);
    let report = validate(&pkg, &inv);
    assert!(!report.all_matched());
    assert_eq!(report.matches[0].status, MatchStatus::NotAVariable);
}

#[test]
fn variable_size_match_records_abi_shape_evidence() {
    let inv = SymbolInventory {
        artifact_path: "test.o".into(),
        format: ArtifactFormat::ElfObject,
        platform: ArtifactPlatform::Elf,
        kind: ArtifactKind::Object,
        capabilities: ArtifactCapabilities {
            exports_symbols: true,
            imports_symbols: false,
        },
        dependency_edges: Vec::new(),
        symbols: vec![SymbolEntry {
            name: "errno".into(),
            raw_name: None,
            version: None,
            direction: SymbolDirection::Exported,
            reexported_via: Vec::new(),
            alias_of: None,
            visibility: SymbolVisibility::Default,
            is_function: false,
            binding: SymbolBinding::Global,
            size: Some(4),
            section: Some(".data".into()),
            archive_member: None,
            function_abi: None,
        }],
    };
    let pkg = make_package_with_vars(&[], &["errno"]);
    let report = validate(&pkg, &inv);
    assert_eq!(report.matches[0].status, MatchStatus::Matched);
    assert_eq!(
        report.matches[0].evidence_kind,
        EvidenceKind::AbiShapeVerified
    );
    assert_eq!(
        report.entries[0].evidence.abi_shape,
        Some(AbiShapeEvidence {
            expected_size: Some(4),
            observed_size: Some(4),
        })
    );
    assert!(report.phases[2].completed);
}

#[test]
fn function_parameter_count_match_records_routine_abi_evidence() {
    let inv = SymbolInventory {
        artifact_path: "test.o".into(),
        format: ArtifactFormat::ElfObject,
        platform: ArtifactPlatform::Elf,
        kind: ArtifactKind::Object,
        capabilities: ArtifactCapabilities {
            exports_symbols: true,
            imports_symbols: false,
        },
        dependency_edges: Vec::new(),
        symbols: vec![SymbolEntry {
            name: "add".into(),
            raw_name: None,
            version: None,
            direction: SymbolDirection::Exported,
            reexported_via: Vec::new(),
            alias_of: None,
            visibility: SymbolVisibility::Default,
            is_function: true,
            binding: SymbolBinding::Global,
            size: None,
            section: Some(".text".into()),
            archive_member: None,
            function_abi: Some(FunctionAbiHint {
                parameter_count: Some(2),
                return_size: Some(4),
                parameter_sizes: vec![Some(4), Some(4)],
            }),
        }],
    };
    let pkg = BindingPackage {
        source_path: None,
        items: vec![BindingItem::Function(FunctionBinding {
            name: "add".into(),
            calling_convention: CallingConvention::C,
            parameters: vec![
                ParameterBinding {
                    name: Some("a".into()),
                    ty: BindingType::Int,
                },
                ParameterBinding {
                    name: Some("b".into()),
                    ty: BindingType::Int,
                },
            ],
            return_type: BindingType::Int,
            variadic: false,
            source_offset: None,
        })],
        diagnostics: Vec::new(),
        ..BindingPackage::new()
    };

    let report = validate(&pkg, &inv);
    assert_eq!(report.matches[0].status, MatchStatus::Matched);
    assert_eq!(
        report.matches[0].evidence_kind,
        EvidenceKind::AbiShapeVerified
    );
    assert_eq!(
        report.entries[0].evidence.routine_abi,
        Some(RoutineAbiEvidence {
            evidence_kind: Some(RoutineAbiEvidenceKind::FullyShaped),
            confidence: Some(RoutineAbiConfidence::Strong),
            expected_parameter_count: Some(2),
            observed_parameter_count: Some(2),
            expected_return_size: Some(4),
            observed_return_size: Some(4),
            expected_parameter_sizes: vec![Some(4), Some(4)],
            observed_parameter_sizes: vec![Some(4), Some(4)],
        })
    );
    assert!(report.phases[2].completed);
}

#[test]
fn function_parameter_count_mismatch_is_reported_as_abi_shape_mismatch() {
    let inv = SymbolInventory {
        artifact_path: "test.o".into(),
        format: ArtifactFormat::ElfObject,
        platform: ArtifactPlatform::Elf,
        kind: ArtifactKind::Object,
        capabilities: ArtifactCapabilities {
            exports_symbols: true,
            imports_symbols: false,
        },
        dependency_edges: Vec::new(),
        symbols: vec![SymbolEntry {
            name: "add".into(),
            raw_name: None,
            version: None,
            direction: SymbolDirection::Exported,
            reexported_via: Vec::new(),
            alias_of: None,
            visibility: SymbolVisibility::Default,
            is_function: true,
            binding: SymbolBinding::Global,
            size: None,
            section: Some(".text".into()),
            archive_member: None,
            function_abi: Some(FunctionAbiHint {
                parameter_count: Some(1),
                return_size: Some(4),
                parameter_sizes: vec![Some(4)],
            }),
        }],
    };
    let pkg = BindingPackage {
        source_path: None,
        items: vec![BindingItem::Function(FunctionBinding {
            name: "add".into(),
            calling_convention: CallingConvention::C,
            parameters: vec![
                ParameterBinding {
                    name: Some("a".into()),
                    ty: BindingType::Int,
                },
                ParameterBinding {
                    name: Some("b".into()),
                    ty: BindingType::Int,
                },
            ],
            return_type: BindingType::Int,
            variadic: false,
            source_offset: None,
        })],
        diagnostics: Vec::new(),
        ..BindingPackage::new()
    };

    let report = validate(&pkg, &inv);
    assert_eq!(report.matches[0].status, MatchStatus::AbiShapeMismatch);
    assert_eq!(
        report.matches[0].evidence_kind,
        EvidenceKind::AbiShapeMismatch
    );
    assert_eq!(report.summary.abi_shape_mismatches, 1);
    assert_eq!(
        report.entries[0].evidence.routine_abi,
        Some(RoutineAbiEvidence {
            evidence_kind: Some(RoutineAbiEvidenceKind::Mismatch),
            confidence: Some(RoutineAbiConfidence::Mismatch),
            expected_parameter_count: Some(2),
            observed_parameter_count: Some(1),
            expected_return_size: Some(4),
            observed_return_size: Some(4),
            expected_parameter_sizes: Vec::new(),
            observed_parameter_sizes: Vec::new(),
        })
    );
    assert!(report.phases[2].completed);
}

#[test]
fn function_return_size_mismatch_is_reported_as_abi_shape_mismatch() {
    let inv = SymbolInventory {
        artifact_path: "test.o".into(),
        format: ArtifactFormat::ElfObject,
        platform: ArtifactPlatform::Elf,
        kind: ArtifactKind::Object,
        capabilities: ArtifactCapabilities {
            exports_symbols: true,
            imports_symbols: false,
        },
        dependency_edges: Vec::new(),
        symbols: vec![SymbolEntry {
            name: "status".into(),
            raw_name: None,
            version: None,
            direction: SymbolDirection::Exported,
            reexported_via: Vec::new(),
            alias_of: None,
            visibility: SymbolVisibility::Default,
            is_function: true,
            binding: SymbolBinding::Global,
            size: None,
            section: Some(".text".into()),
            archive_member: None,
            function_abi: Some(FunctionAbiHint {
                parameter_count: Some(0),
                return_size: Some(8),
                parameter_sizes: Vec::new(),
            }),
        }],
    };
    let pkg = BindingPackage {
        source_path: None,
        items: vec![BindingItem::Function(FunctionBinding {
            name: "status".into(),
            calling_convention: CallingConvention::C,
            parameters: Vec::new(),
            return_type: BindingType::Int,
            variadic: false,
            source_offset: None,
        })],
        diagnostics: Vec::new(),
        ..BindingPackage::new()
    };

    let report = validate(&pkg, &inv);
    assert_eq!(report.matches[0].status, MatchStatus::AbiShapeMismatch);
    assert_eq!(
        report.entries[0].evidence.routine_abi,
        Some(RoutineAbiEvidence {
            evidence_kind: Some(RoutineAbiEvidenceKind::Mismatch),
            confidence: Some(RoutineAbiConfidence::Mismatch),
            expected_parameter_count: Some(0),
            observed_parameter_count: Some(0),
            expected_return_size: Some(4),
            observed_return_size: Some(8),
            expected_parameter_sizes: Vec::new(),
            observed_parameter_sizes: Vec::new(),
        })
    );
}

#[test]
fn function_parameter_size_mismatch_is_reported_as_abi_shape_mismatch() {
    let inv = SymbolInventory {
        artifact_path: "test.o".into(),
        format: ArtifactFormat::ElfObject,
        platform: ArtifactPlatform::Elf,
        kind: ArtifactKind::Object,
        capabilities: ArtifactCapabilities {
            exports_symbols: true,
            imports_symbols: false,
        },
        dependency_edges: Vec::new(),
        symbols: vec![SymbolEntry {
            name: "mix".into(),
            raw_name: None,
            version: None,
            direction: SymbolDirection::Exported,
            reexported_via: Vec::new(),
            alias_of: None,
            visibility: SymbolVisibility::Default,
            is_function: true,
            binding: SymbolBinding::Global,
            size: None,
            section: Some(".text".into()),
            archive_member: None,
            function_abi: Some(FunctionAbiHint {
                parameter_count: Some(2),
                return_size: Some(4),
                parameter_sizes: vec![Some(4), Some(8)],
            }),
        }],
    };
    let pkg = BindingPackage {
        source_path: None,
        items: vec![BindingItem::Function(FunctionBinding {
            name: "mix".into(),
            calling_convention: CallingConvention::C,
            parameters: vec![
                ParameterBinding {
                    name: Some("left".into()),
                    ty: BindingType::Int,
                },
                ParameterBinding {
                    name: Some("right".into()),
                    ty: BindingType::Float,
                },
            ],
            return_type: BindingType::Int,
            variadic: false,
            source_offset: None,
        })],
        diagnostics: Vec::new(),
        ..BindingPackage::new()
    };

    let report = validate(&pkg, &inv);
    assert_eq!(report.matches[0].status, MatchStatus::AbiShapeMismatch);
    assert_eq!(
        report.entries[0].evidence.routine_abi,
        Some(RoutineAbiEvidence {
            evidence_kind: Some(RoutineAbiEvidenceKind::Mismatch),
            confidence: Some(RoutineAbiConfidence::Mismatch),
            expected_parameter_count: Some(2),
            observed_parameter_count: Some(2),
            expected_return_size: Some(4),
            observed_return_size: Some(4),
            expected_parameter_sizes: vec![Some(4), Some(4)],
            observed_parameter_sizes: vec![Some(4), Some(8)],
        })
    );
}

#[test]
fn function_parameter_count_only_evidence_is_marked_partial() {
    let inv = SymbolInventory {
        artifact_path: "test.o".into(),
        format: ArtifactFormat::ElfObject,
        platform: ArtifactPlatform::Elf,
        kind: ArtifactKind::Object,
        capabilities: ArtifactCapabilities {
            exports_symbols: true,
            imports_symbols: false,
        },
        dependency_edges: Vec::new(),
        symbols: vec![SymbolEntry {
            name: "ping".into(),
            raw_name: None,
            version: None,
            direction: SymbolDirection::Exported,
            reexported_via: Vec::new(),
            alias_of: None,
            visibility: SymbolVisibility::Default,
            is_function: true,
            binding: SymbolBinding::Global,
            size: None,
            section: Some(".text".into()),
            archive_member: None,
            function_abi: Some(FunctionAbiHint {
                parameter_count: Some(1),
                return_size: None,
                parameter_sizes: Vec::new(),
            }),
        }],
    };
    let pkg = BindingPackage {
        source_path: None,
        items: vec![BindingItem::Function(FunctionBinding {
            name: "ping".into(),
            calling_convention: CallingConvention::C,
            parameters: vec![ParameterBinding {
                name: Some("value".into()),
                ty: BindingType::Int,
            }],
            return_type: BindingType::Void,
            variadic: false,
            source_offset: None,
        })],
        diagnostics: Vec::new(),
        ..BindingPackage::new()
    };

    let report = validate(&pkg, &inv);
    assert_eq!(report.matches[0].status, MatchStatus::Matched);
    assert_eq!(
        report.entries[0].evidence.routine_abi,
        Some(RoutineAbiEvidence {
            evidence_kind: Some(RoutineAbiEvidenceKind::ParameterCountOnly),
            confidence: Some(RoutineAbiConfidence::Partial),
            expected_parameter_count: Some(1),
            observed_parameter_count: Some(1),
            expected_return_size: None,
            observed_return_size: None,
            expected_parameter_sizes: Vec::new(),
            observed_parameter_sizes: Vec::new(),
        })
    );
}

#[test]
fn typedef_layouts_drive_variable_abi_checks() {
    let inv = SymbolInventory {
        artifact_path: "test.o".into(),
        format: ArtifactFormat::ElfObject,
        platform: ArtifactPlatform::Elf,
        kind: ArtifactKind::Object,
        capabilities: ArtifactCapabilities {
            exports_symbols: true,
            imports_symbols: false,
        },
        dependency_edges: Vec::new(),
        symbols: vec![SymbolEntry {
            name: "widget_state".into(),
            raw_name: None,
            version: None,
            direction: SymbolDirection::Exported,
            reexported_via: Vec::new(),
            alias_of: None,
            visibility: SymbolVisibility::Default,
            is_function: false,
            binding: SymbolBinding::Global,
            size: Some(16),
            section: Some(".data".into()),
            archive_member: None,
            function_abi: None,
        }],
    };
    let pkg = BindingPackage {
        source_path: None,
        items: vec![
            BindingItem::TypeAlias(TypeAliasBinding {
                name: "widget_state_t".into(),
                target: BindingType::RecordRef("widget_state".into()),
                canonical_resolution: Some(AliasResolution {
                    alias_chain: vec!["widget_state_t".into()],
                    terminal_target: BindingType::RecordRef("widget_state".into()),
                }),
                abi_confidence: None,
                source_offset: None,
            }),
            BindingItem::Variable(VariableBinding {
                name: "widget_state".into(),
                ty: BindingType::TypedefRef("widget_state_t".into()),
                source_offset: None,
            }),
        ],
        diagnostics: Vec::new(),
        layouts: vec![TypeLayout {
            name: "widget_state_t".into(),
            size: 16,
            align: 8,
        }],
        ..BindingPackage::new()
    };

    let report = validate(&pkg, &inv);
    assert_eq!(report.matches[0].status, MatchStatus::Matched);
    assert_eq!(
        report.matches[0].evidence_kind,
        EvidenceKind::AbiShapeVerified
    );
}

#[test]
fn record_and_enum_representation_sizes_drive_abi_checks_without_layouts() {
    let inv = SymbolInventory {
        artifact_path: "test.o".into(),
        format: ArtifactFormat::ElfObject,
        platform: ArtifactPlatform::Elf,
        kind: ArtifactKind::Object,
        capabilities: ArtifactCapabilities {
            exports_symbols: true,
            imports_symbols: false,
        },
        dependency_edges: Vec::new(),
        symbols: vec![
            SymbolEntry {
                name: "widget".into(),
                raw_name: None,
                version: None,
                direction: SymbolDirection::Exported,
                reexported_via: Vec::new(),
                alias_of: None,
                visibility: SymbolVisibility::Default,
                is_function: false,
                binding: SymbolBinding::Global,
                size: Some(24),
                section: Some(".data".into()),
                archive_member: None,
                function_abi: None,
            },
            SymbolEntry {
                name: "mode".into(),
                raw_name: None,
                version: None,
                direction: SymbolDirection::Exported,
                reexported_via: Vec::new(),
                alias_of: None,
                visibility: SymbolVisibility::Default,
                is_function: false,
                binding: SymbolBinding::Global,
                size: Some(4),
                section: Some(".data".into()),
                archive_member: None,
                function_abi: None,
            },
        ],
    };
    let pkg = BindingPackage {
        source_path: None,
        items: vec![
            BindingItem::Record(RecordBinding {
                kind: RecordKind::Struct,
                name: Some("widget".into()),
                fields: None,
                representation: Some(RecordRepresentation {
                    size: Some(24),
                    align: Some(8),
                    completeness: Some("Complete".into()),
                }),
                abi_confidence: Some(AbiConfidence::RepresentationProbed),
                source_offset: None,
            }),
            BindingItem::Enum(EnumBinding {
                name: Some("mode".into()),
                variants: Vec::new(),
                representation: Some(EnumRepresentation {
                    underlying_size: Some(4),
                    is_signed: Some(true),
                }),
                abi_confidence: Some(AbiConfidence::RepresentationProbed),
                source_offset: None,
            }),
            BindingItem::Variable(VariableBinding {
                name: "widget".into(),
                ty: BindingType::RecordRef("widget".into()),
                source_offset: None,
            }),
            BindingItem::Variable(VariableBinding {
                name: "mode".into(),
                ty: BindingType::EnumRef("mode".into()),
                source_offset: None,
            }),
        ],
        diagnostics: Vec::new(),
        ..BindingPackage::new()
    };

    let report = validate(&pkg, &inv);
    assert_eq!(report.matches.len(), 2);
    assert!(report
        .matches
        .iter()
        .all(|entry| entry.status == MatchStatus::Matched));
    assert!(report
        .entries
        .iter()
        .all(|entry| entry.evidence.abi_shape.is_some()));
}

#[test]
fn layout_backed_confidence_helpers_find_entries_with_size_evidence() {
    let inv = SymbolInventory {
        artifact_path: "test.o".into(),
        format: ArtifactFormat::ElfObject,
        platform: ArtifactPlatform::Elf,
        kind: ArtifactKind::Object,
        capabilities: ArtifactCapabilities {
            exports_symbols: true,
            imports_symbols: false,
        },
        dependency_edges: Vec::new(),
        symbols: vec![
            SymbolEntry {
                name: "widget".into(),
                raw_name: None,
                version: None,
                direction: SymbolDirection::Exported,
                reexported_via: Vec::new(),
                alias_of: None,
                visibility: SymbolVisibility::Default,
                is_function: false,
                binding: SymbolBinding::Global,
                size: Some(24),
                section: Some(".data".into()),
                archive_member: None,
                function_abi: None,
            },
            SymbolEntry {
                name: "ping".into(),
                raw_name: None,
                version: None,
                direction: SymbolDirection::Exported,
                reexported_via: Vec::new(),
                alias_of: None,
                visibility: SymbolVisibility::Default,
                is_function: true,
                binding: SymbolBinding::Global,
                size: None,
                section: Some(".text".into()),
                archive_member: None,
                function_abi: Some(FunctionAbiHint {
                    parameter_count: Some(1),
                    return_size: Some(4),
                    parameter_sizes: vec![Some(4)],
                }),
            },
        ],
    };
    let pkg = BindingPackage {
        source_path: None,
        items: vec![
            BindingItem::Record(RecordBinding {
                kind: RecordKind::Struct,
                name: Some("widget".into()),
                fields: None,
                representation: Some(RecordRepresentation {
                    size: Some(24),
                    align: Some(8),
                    completeness: Some("Complete".into()),
                }),
                abi_confidence: Some(AbiConfidence::RepresentationProbed),
                source_offset: None,
            }),
            BindingItem::Variable(VariableBinding {
                name: "widget".into(),
                ty: BindingType::RecordRef("widget".into()),
                source_offset: None,
            }),
            BindingItem::Function(FunctionBinding {
                name: "ping".into(),
                calling_convention: CallingConvention::C,
                parameters: vec![ParameterBinding {
                    name: Some("value".into()),
                    ty: BindingType::Int,
                }],
                return_type: BindingType::Int,
                variadic: false,
                source_offset: None,
            }),
        ],
        diagnostics: Vec::new(),
        ..BindingPackage::new()
    };

    let report = validate(&pkg, &inv);
    assert_eq!(report.layout_backed_entries().len(), 2);
    assert!(report
        .entries
        .iter()
        .all(|entry| entry.has_layout_backed_confidence()));
    assert!(report
        .entries
        .iter()
        .all(|entry| entry.evidence.has_layout_backed_confidence()));
}

#[test]
fn provider_state_helpers_group_resolved_unresolved_and_ambiguous_entries() {
    let pkg = make_package(&["ok", "missing", "dup"]);
    let inv1 = SymbolInventory {
        artifact_path: "libone.a".into(),
        format: ArtifactFormat::ElfStaticLibrary,
        platform: ArtifactPlatform::Elf,
        kind: ArtifactKind::StaticLibrary,
        capabilities: ArtifactCapabilities {
            exports_symbols: true,
            imports_symbols: false,
        },
        dependency_edges: Vec::new(),
        symbols: vec![
            SymbolEntry {
                name: "ok".into(),
                raw_name: None,
                version: None,
                direction: SymbolDirection::Exported,
                reexported_via: Vec::new(),
                alias_of: None,
                visibility: SymbolVisibility::Default,
                is_function: true,
                binding: SymbolBinding::Global,
                size: None,
                section: None,
                archive_member: Some("ok.o".into()),
                function_abi: None,
            },
            SymbolEntry {
                name: "dup".into(),
                raw_name: None,
                version: None,
                direction: SymbolDirection::Exported,
                reexported_via: Vec::new(),
                alias_of: None,
                visibility: SymbolVisibility::Default,
                is_function: true,
                binding: SymbolBinding::Global,
                size: None,
                section: None,
                archive_member: Some("dup1.o".into()),
                function_abi: None,
            },
        ],
    };
    let inv2 = SymbolInventory {
        artifact_path: "libtwo.a".into(),
        format: ArtifactFormat::ElfStaticLibrary,
        platform: ArtifactPlatform::Elf,
        kind: ArtifactKind::StaticLibrary,
        capabilities: ArtifactCapabilities {
            exports_symbols: true,
            imports_symbols: false,
        },
        dependency_edges: Vec::new(),
        symbols: vec![SymbolEntry {
            name: "dup".into(),
            raw_name: None,
            version: None,
            direction: SymbolDirection::Exported,
            reexported_via: Vec::new(),
            alias_of: None,
            visibility: SymbolVisibility::Default,
            is_function: true,
            binding: SymbolBinding::Global,
            size: None,
            section: None,
            archive_member: Some("dup2.o".into()),
            function_abi: None,
        }],
    };

    let report = validate_many(&pkg, &[inv1, inv2]);
    assert_eq!(report.resolved_provider_entries().len(), 1);
    assert_eq!(report.unresolved_provider_entries().len(), 1);
    assert_eq!(report.ambiguous_provider_entries().len(), 1);
    assert!(report
        .resolved_provider_entries()
        .iter()
        .all(|entry| entry.has_resolved_provider_state()));
    assert!(report
        .unresolved_provider_entries()
        .iter()
        .all(|entry| entry.has_unresolved_provider_state()));
    assert!(report
        .ambiguous_provider_entries()
        .iter()
        .all(|entry| entry.has_ambiguous_provider_state()));
}

#[test]
fn variable_size_mismatch_is_reported_as_abi_shape_mismatch() {
    let inv = SymbolInventory {
        artifact_path: "test.o".into(),
        format: ArtifactFormat::ElfObject,
        platform: ArtifactPlatform::Elf,
        kind: ArtifactKind::Object,
        capabilities: ArtifactCapabilities {
            exports_symbols: true,
            imports_symbols: false,
        },
        dependency_edges: Vec::new(),
        symbols: vec![SymbolEntry {
            name: "errno".into(),
            raw_name: None,
            version: None,
            direction: SymbolDirection::Exported,
            reexported_via: Vec::new(),
            alias_of: None,
            visibility: SymbolVisibility::Default,
            is_function: false,
            binding: SymbolBinding::Global,
            size: Some(8),
            section: Some(".data".into()),
            archive_member: None,
            function_abi: None,
        }],
    };
    let pkg = make_package_with_vars(&[], &["errno"]);
    let report = validate(&pkg, &inv);
    assert_eq!(report.matches[0].status, MatchStatus::AbiShapeMismatch);
    assert_eq!(
        report.matches[0].evidence_kind,
        EvidenceKind::AbiShapeMismatch
    );
    assert_eq!(report.summary.abi_shape_mismatches, 1);
    assert_eq!(
        report.entries[0].evidence.abi_shape,
        Some(AbiShapeEvidence {
            expected_size: Some(4),
            observed_size: Some(8),
        })
    );
    assert!(report.phases[2].completed);
}

#[test]
fn mixed_functions_and_variables() {
    let inv = make_inventory(&["foo"], &["bar"]);
    let pkg = make_package_with_vars(&["foo"], &["bar"]);
    let report = validate(&pkg, &inv);
    assert!(report.all_matched());
    assert_eq!(report.matched().len(), 2);
}

#[test]
fn hidden_function_not_matched() {
    let inv = make_inventory_with_vis(&[("foo", true, SymbolVisibility::Hidden)]);
    let pkg = make_package(&["foo"]);
    let report = validate(&pkg, &inv);
    assert!(!report.all_matched());
    assert_eq!(report.hidden().len(), 1);
    assert_eq!(report.matches[0].visibility, Some(SymbolVisibility::Hidden));
}

#[test]
fn internal_variable_not_matched() {
    let inv = make_inventory_with_vis(&[("data", false, SymbolVisibility::Internal)]);
    let pkg = make_package_with_vars(&[], &["data"]);
    let report = validate(&pkg, &inv);
    assert!(!report.all_matched());
    assert_eq!(report.hidden().len(), 1);
}

#[test]
fn weak_function_match() {
    let inv = SymbolInventory {
        artifact_path: "test.o".into(),
        format: ArtifactFormat::ElfObject,
        platform: ArtifactPlatform::Elf,
        kind: ArtifactKind::Object,
        capabilities: ArtifactCapabilities {
            exports_symbols: true,
            imports_symbols: false,
        },
        dependency_edges: Vec::new(),
        symbols: vec![SymbolEntry {
            name: "foo".into(),
            raw_name: None,
            version: None,
            direction: SymbolDirection::Exported,
            reexported_via: Vec::new(),
            alias_of: None,
            visibility: SymbolVisibility::Default,
            is_function: true,
            binding: SymbolBinding::Weak,
            size: None,
            section: None,
            archive_member: None,
            function_abi: None,
        }],
    };
    let pkg = make_package(&["foo"]);
    let report = validate(&pkg, &inv);
    assert_eq!(report.matches[0].status, MatchStatus::WeakMatch);
    // WeakMatch is not the same as Matched
    assert!(!report.all_matched());
}

#[test]
fn default_visibility_matched() {
    let inv = make_inventory_with_vis(&[("foo", true, SymbolVisibility::Default)]);
    let pkg = make_package(&["foo"]);
    let report = validate(&pkg, &inv);
    assert!(report.all_matched());
    assert_eq!(
        report.matches[0].visibility,
        Some(SymbolVisibility::Default)
    );
}

#[test]
fn match_has_item_kind() {
    let inv = make_inventory(&["foo"], &["bar"]);
    let pkg = make_package_with_vars(&["foo"], &["bar"]);
    let report = validate(&pkg, &inv);
    let func_match = report.matches.iter().find(|m| m.name == "foo").unwrap();
    let var_match = report.matches.iter().find(|m| m.name == "bar").unwrap();
    assert_eq!(func_match.item_kind, ItemKind::Function);
    assert_eq!(var_match.item_kind, ItemKind::Variable);
}

/// End-to-end: parse C, compile it, validate symbols.
#[test]
fn validation_summary_reflects_report() {
    let pkg = make_package_with_vars(&["foo", "bar"], &["global_x"]);
    let inv = make_inventory(&["foo"], &["global_x"]);
    let report = validate(&pkg, &inv);

    assert_eq!(report.summary.total, 3);
    assert_eq!(report.summary.matched, 2);
    assert_eq!(report.summary.missing, 1);
}

#[test]
fn validation_entry_provider_state_helpers() {
    let matched_entry = ValidationEntry {
        declaration: ValidationDeclaration {
            name: "foo".into(),
            item_kind: ItemKind::Function,
        },
        status: MatchStatus::Matched,
        evidence: ValidationEvidence {
            provider_artifacts: vec!["lib.so".into()],
            raw_symbol_names: vec!["foo".into()],
            visibility: Some(SymbolVisibility::Default),
            confidence: MatchConfidence::High,
            evidence_kind: EvidenceKind::ExactExported,
            abi_shape: None,
            routine_abi: None,
        },
    };
    assert!(matched_entry.has_resolved_provider_state());
    assert!(!matched_entry.has_unresolved_provider_state());
    assert!(!matched_entry.has_ambiguous_provider_state());
    assert!(!matched_entry.has_layout_backed_confidence());

    let missing_entry = ValidationEntry {
        declaration: ValidationDeclaration {
            name: "bar".into(),
            item_kind: ItemKind::Function,
        },
        status: MatchStatus::Missing,
        evidence: ValidationEvidence {
            provider_artifacts: vec![],
            raw_symbol_names: vec![],
            visibility: None,
            confidence: MatchConfidence::NoConfidence,
            evidence_kind: EvidenceKind::MissingProvider,
            abi_shape: None,
            routine_abi: None,
        },
    };
    assert!(!missing_entry.has_resolved_provider_state());
    assert!(missing_entry.has_unresolved_provider_state());

    let dup_entry = ValidationEntry {
        declaration: ValidationDeclaration {
            name: "baz".into(),
            item_kind: ItemKind::Function,
        },
        status: MatchStatus::DuplicateProviders,
        evidence: ValidationEvidence {
            provider_artifacts: vec!["a.so".into(), "b.so".into()],
            raw_symbol_names: vec!["baz".into()],
            visibility: Some(SymbolVisibility::Default),
            confidence: MatchConfidence::Low,
            evidence_kind: EvidenceKind::DuplicateVisibleProviders,
            abi_shape: None,
            routine_abi: None,
        },
    };
    assert!(dup_entry.has_ambiguous_provider_state());
    assert!(!dup_entry.has_resolved_provider_state());
}

#[test]
fn validation_evidence_layout_backed_detection() {
    let with_abi_shape = ValidationEvidence {
        provider_artifacts: vec!["lib.so".into()],
        raw_symbol_names: vec!["x".into()],
        visibility: Some(SymbolVisibility::Default),
        confidence: MatchConfidence::High,
        evidence_kind: EvidenceKind::AbiShapeVerified,
        abi_shape: Some(AbiShapeEvidence {
            expected_size: Some(4),
            observed_size: Some(4),
        }),
        routine_abi: None,
    };
    assert!(with_abi_shape.has_layout_backed_confidence());

    let with_routine_sizes = ValidationEvidence {
        provider_artifacts: vec!["lib.so".into()],
        raw_symbol_names: vec!["f".into()],
        visibility: Some(SymbolVisibility::Default),
        confidence: MatchConfidence::High,
        evidence_kind: EvidenceKind::ExactExported,
        abi_shape: None,
        routine_abi: Some(RoutineAbiEvidence {
            evidence_kind: Some(RoutineAbiEvidenceKind::FullyShaped),
            confidence: Some(RoutineAbiConfidence::Strong),
            expected_parameter_count: Some(2),
            observed_parameter_count: Some(2),
            expected_return_size: Some(4),
            observed_return_size: Some(4),
            expected_parameter_sizes: vec![Some(4), Some(8)],
            observed_parameter_sizes: vec![Some(4), Some(8)],
        }),
    };
    assert!(with_routine_sizes.has_layout_backed_confidence());

    let no_layout = ValidationEvidence {
        provider_artifacts: vec!["lib.so".into()],
        raw_symbol_names: vec!["g".into()],
        visibility: Some(SymbolVisibility::Default),
        confidence: MatchConfidence::High,
        evidence_kind: EvidenceKind::ExactExported,
        abi_shape: None,
        routine_abi: None,
    };
    assert!(!no_layout.has_layout_backed_confidence());
}

#[test]
fn validation_report_helper_accessors() {
    let pkg = make_package_with_vars(&["alpha", "beta"], &["data"]);
    let inv = make_inventory_with_vis(&[
        ("alpha", true, SymbolVisibility::Default),
        ("beta", true, SymbolVisibility::Hidden),
        ("data", false, SymbolVisibility::Default),
    ]);
    let report = validate(&pkg, &inv);

    assert_eq!(report.matched().len(), 2); // alpha + data
    assert_eq!(report.hidden().len(), 1); // beta hidden
    assert_eq!(report.hidden()[0].name, "beta");
    assert_eq!(report.resolved_provider_entries().len(), 2); // alpha + data
}

#[test]
fn validate_many_entries_cover_mixed_states() {
    let pkg = make_package_with_vars(&["found_func", "missing_func"], &["found_var"]);
    let inv1 = make_inventory(&["found_func"], &[]);
    let inv2 = SymbolInventory {
        artifact_path: "data.o".into(),
        format: ArtifactFormat::ElfObject,
        platform: ArtifactPlatform::Elf,
        kind: ArtifactKind::Object,
        capabilities: ArtifactCapabilities {
            exports_symbols: true,
            imports_symbols: false,
        },
        dependency_edges: Vec::new(),
        symbols: vec![SymbolEntry {
            name: "found_var".into(),
            raw_name: None,
            version: None,
            direction: SymbolDirection::Exported,
            reexported_via: Vec::new(),
            alias_of: None,
            visibility: SymbolVisibility::Default,
            is_function: false,
            binding: SymbolBinding::Global,
            size: Some(4),
            section: None,
            archive_member: None,
            function_abi: None,
        }],
    };

    let report = validate_many(&pkg, &[inv1, inv2]);

    // Summary should reflect mixed state
    assert_eq!(report.summary.total, 3);
    assert_eq!(report.summary.matched, 2);
    assert_eq!(report.summary.missing, 1);

    // Entries surface should have all 3 declarations
    assert_eq!(report.entries.len(), 3);
    assert_eq!(report.resolved_provider_entries().len(), 2);
    assert_eq!(report.unresolved_provider_entries().len(), 1);

    // Helper methods agree
    assert_eq!(report.matched().len(), 2);
    assert_eq!(report.missing().len(), 1);
    assert_eq!(report.missing()[0].name, "missing_func");
    assert!(!report.all_matched());
}
