#![allow(unused_imports)]
use linc::symbols::{
    assign_symbol_alias, attach_reexport_candidates, inspect_bytes, is_probable_import_library,
    normalize_symbol_identity, parse_elf_needed_entries, ArtifactCapabilities, ArtifactFormat,
    ArtifactKind, ArtifactPlatform, ObjectFormat, SymbolBinding, SymbolDirection, SymbolEntry,
    SymbolInventory, SymbolVisibility,
};

fn minimal_macho_object() -> Vec<u8> {
    let mut d = Vec::new();

    let header_size: usize = 32;
    let seg_cmd_size: usize = 72 + 80; // LC_SEGMENT_64 + 1 section_64
    let symtab_cmd_size: usize = 24;
    let cmds_size = seg_cmd_size + symtab_cmd_size; // 176
    let text_offset = header_size + cmds_size; // 208
    let text_size: usize = 4;
    let symtab_offset = text_offset + text_size; // 212
    let nsyms: u32 = 1;
    let nlist_size: usize = 16;
    let strtab_offset = symtab_offset + (nsyms as usize * nlist_size); // 228
    let strtab: &[u8] = b"\0_foo\0";
    let strtab_size = strtab.len(); // 6

    // --- mach_header_64 (32 bytes) ---
    d.extend_from_slice(&0xFEEDFACFu32.to_le_bytes()); // magic
    d.extend_from_slice(&0x01000007u32.to_le_bytes()); // cputype: CPU_TYPE_X86_64
    d.extend_from_slice(&0x00000003u32.to_le_bytes()); // cpusubtype: CPU_SUBTYPE_ALL
    d.extend_from_slice(&0x00000001u32.to_le_bytes()); // filetype: MH_OBJECT
    d.extend_from_slice(&2u32.to_le_bytes());           // ncmds
    d.extend_from_slice(&(cmds_size as u32).to_le_bytes());
    d.extend_from_slice(&0u32.to_le_bytes());           // flags
    d.extend_from_slice(&0u32.to_le_bytes());           // reserved

    // --- LC_SEGMENT_64 (72 bytes base) ---
    d.extend_from_slice(&0x19u32.to_le_bytes());        // cmd: LC_SEGMENT_64
    d.extend_from_slice(&(seg_cmd_size as u32).to_le_bytes());
    d.extend_from_slice(&[0u8; 16]);                    // segname (empty)
    d.extend_from_slice(&0u64.to_le_bytes());           // vmaddr
    d.extend_from_slice(&(text_size as u64).to_le_bytes()); // vmsize
    d.extend_from_slice(&(text_offset as u64).to_le_bytes()); // fileoff
    d.extend_from_slice(&(text_size as u64).to_le_bytes()); // filesize
    d.extend_from_slice(&0x07u32.to_le_bytes());        // maxprot: rwx
    d.extend_from_slice(&0x05u32.to_le_bytes());        // initprot: rx
    d.extend_from_slice(&1u32.to_le_bytes());           // nsects
    d.extend_from_slice(&0u32.to_le_bytes());           // flags

    // --- section_64 (80 bytes) ---
    let mut sectname = [0u8; 16];
    sectname[..6].copy_from_slice(b"__text");
    d.extend_from_slice(&sectname);
    let mut segname = [0u8; 16];
    segname[..6].copy_from_slice(b"__TEXT");
    d.extend_from_slice(&segname);
    d.extend_from_slice(&0u64.to_le_bytes());           // addr
    d.extend_from_slice(&(text_size as u64).to_le_bytes()); // size
    d.extend_from_slice(&(text_offset as u32).to_le_bytes()); // offset
    d.extend_from_slice(&0u32.to_le_bytes());           // align
    d.extend_from_slice(&0u32.to_le_bytes());           // reloff
    d.extend_from_slice(&0u32.to_le_bytes());           // nreloc
    d.extend_from_slice(&0x80000400u32.to_le_bytes()); // flags: S_REGULAR|PURE_INSTRUCTIONS|SOME_INSTRUCTIONS
    d.extend_from_slice(&0u32.to_le_bytes());           // reserved1
    d.extend_from_slice(&0u32.to_le_bytes());           // reserved2
    d.extend_from_slice(&0u32.to_le_bytes());           // reserved3

    // --- LC_SYMTAB (24 bytes) ---
    d.extend_from_slice(&0x02u32.to_le_bytes());        // cmd: LC_SYMTAB
    d.extend_from_slice(&(symtab_cmd_size as u32).to_le_bytes());
    d.extend_from_slice(&(symtab_offset as u32).to_le_bytes());
    d.extend_from_slice(&nsyms.to_le_bytes());
    d.extend_from_slice(&(strtab_offset as u32).to_le_bytes());
    d.extend_from_slice(&(strtab_size as u32).to_le_bytes());

    // --- __text section data ---
    assert_eq!(d.len(), text_offset);
    d.extend_from_slice(&[0xC3, 0x90, 0x90, 0x90]); // ret, nop, nop, nop

    // --- nlist_64 symbol entry (16 bytes) ---
    assert_eq!(d.len(), symtab_offset);
    d.extend_from_slice(&1u32.to_le_bytes());           // n_strx -> "_foo"
    d.push(0x0F); // n_type: N_SECT (0x0E) | N_EXT (0x01)
    d.push(0x01); // n_sect: 1 (first section, 1-based)
    d.extend_from_slice(&0u16.to_le_bytes());           // n_desc
    d.extend_from_slice(&0u64.to_le_bytes());           // n_value

    // --- string table ---
    assert_eq!(d.len(), strtab_offset);
    d.extend_from_slice(strtab);

    d
}

fn macho_object_with_weak_symbol() -> Vec<u8> {
    let mut d = minimal_macho_object();
    // Patch nlist_64 n_desc to N_WEAK_DEF (0x0080)
    // nlist_64: n_strx(4) + n_type(1) + n_sect(1) + n_desc(2) + n_value(8)
    // n_desc is at symtab_offset + 6 = 212 + 6 = 218
    let n_desc_offset = 212 + 6;
    d[n_desc_offset] = 0x80; // low byte of n_desc = 0x0080
    d[n_desc_offset + 1] = 0x00;
    // Also patch the string table to say "_weak_fn" instead of "_foo"
    let strtab_offset = 228;
    // Replace "\0_foo\0" with "\0_weak_fn\0" — need to extend
    d.truncate(strtab_offset);
    d.extend_from_slice(b"\0_weak_fn\0");
    // Update strsize in LC_SYMTAB (at offset 0xCC = 204)
    let new_strsize = 10u32; // "\0_weak_fn\0".len()
    d[204..208].copy_from_slice(&new_strsize.to_le_bytes());
    d
}

#[test]
fn inspect_macho_object() {
    let data = minimal_macho_object();
    let inv = inspect_bytes(&data, "test.o".into()).unwrap();
    assert_eq!(inv.format, ArtifactFormat::MachOObject);
    assert_eq!(inv.platform, ArtifactPlatform::MachO);
    assert_eq!(inv.kind, ArtifactKind::Object);
    assert!(inv.capabilities.exports_symbols);
    assert!(inv.dependency_edges.is_empty());
    // Leading '_' should be stripped
    assert!(inv.has_symbol("foo"), "symbols: {:?}", inv.symbols);
    assert!(!inv.has_symbol("_foo"), "underscore should be stripped");
    assert_eq!(inv.function_names(), vec!["foo"]);
}

#[test]
fn macho_symbol_visibility_and_binding() {
    let data = minimal_macho_object();
    let inv = inspect_bytes(&data, "test.o".into()).unwrap();
    let sym = inv.symbols.iter().find(|s| s.name == "foo").unwrap();
    assert_eq!(sym.raw_name.as_deref(), Some("_foo"));
    assert_eq!(sym.visibility, SymbolVisibility::Default);
    assert_eq!(sym.binding, SymbolBinding::Global);
    assert!(sym.is_function);
}

#[test]
fn macho_weak_symbol_detected() {
    let data = macho_object_with_weak_symbol();
    let inv = inspect_bytes(&data, "test.o".into()).unwrap();
    let sym = inv.symbols.iter().find(|s| s.name == "weak_fn").unwrap();
    assert_eq!(sym.binding, SymbolBinding::Weak);
    assert!(sym.is_function);
}

#[test]
fn macos_macho_support_matrix_capabilities_match_expectations() {
    let cases = [
        (
            ArtifactFormat::MachOObject,
            ArtifactKind::Object,
            ArtifactCapabilities {
                exports_symbols: true,
                imports_symbols: false,
            },
        ),
        (
            ArtifactFormat::MachOStaticLibrary,
            ArtifactKind::StaticLibrary,
            ArtifactCapabilities {
                exports_symbols: true,
                imports_symbols: false,
            },
        ),
        (
            ArtifactFormat::MachODylib,
            ArtifactKind::SharedLibrary,
            ArtifactCapabilities {
                exports_symbols: true,
                imports_symbols: true,
            },
        ),
    ];

    for (format, kind, capabilities) in cases {
        let inv = SymbolInventory {
            artifact_path: format!("{:?}", format),
            format,
            platform: ArtifactPlatform::MachO,
            kind,
            capabilities,
            dependency_edges: Vec::new(),
            symbols: Vec::new(),
        };

        assert_eq!(inv.platform, ArtifactPlatform::MachO);
        assert!(inv.capabilities.exports_symbols);
        assert_eq!(
            inv.capabilities.imports_symbols,
            matches!(inv.kind, ArtifactKind::SharedLibrary | ArtifactKind::Executable)
        );
        assert!(inv.dependency_edges.is_empty());
    }
}

#[test]
fn artifact_kind_platform_capability_matrix_is_consistent() {
    let cases = [
        (
            ArtifactPlatform::Elf,
            ArtifactKind::Object,
            ArtifactCapabilities {
                exports_symbols: true,
                imports_symbols: false,
            },
        ),
        (
            ArtifactPlatform::Elf,
            ArtifactKind::StaticLibrary,
            ArtifactCapabilities {
                exports_symbols: true,
                imports_symbols: false,
            },
        ),
        (
            ArtifactPlatform::Elf,
            ArtifactKind::SharedLibrary,
            ArtifactCapabilities {
                exports_symbols: true,
                imports_symbols: true,
            },
        ),
        (
            ArtifactPlatform::MachO,
            ArtifactKind::Object,
            ArtifactCapabilities {
                exports_symbols: true,
                imports_symbols: false,
            },
        ),
        (
            ArtifactPlatform::MachO,
            ArtifactKind::StaticLibrary,
            ArtifactCapabilities {
                exports_symbols: true,
                imports_symbols: false,
            },
        ),
        (
            ArtifactPlatform::MachO,
            ArtifactKind::SharedLibrary,
            ArtifactCapabilities {
                exports_symbols: true,
                imports_symbols: true,
            },
        ),
        (
            ArtifactPlatform::Windows,
            ArtifactKind::Object,
            ArtifactCapabilities {
                exports_symbols: true,
                imports_symbols: false,
            },
        ),
        (
            ArtifactPlatform::Windows,
            ArtifactKind::SharedLibrary,
            ArtifactCapabilities {
                exports_symbols: true,
                imports_symbols: true,
            },
        ),
    ];

    for (platform, kind, capabilities) in cases {
        let inventory = SymbolInventory {
            artifact_path: format!("{platform:?}-{kind:?}"),
            format: ArtifactFormat::Unknown("fixture".into()),
            platform,
            kind,
            capabilities,
            dependency_edges: Vec::new(),
            symbols: Vec::new(),
        };

        assert!(inventory.capabilities.exports_symbols);
        assert_eq!(
            inventory.capabilities.imports_symbols,
            matches!(inventory.kind, ArtifactKind::SharedLibrary | ArtifactKind::Executable)
        );
    }
}

#[test]
fn macho_section_name() {
    let data = minimal_macho_object();
    let inv = inspect_bytes(&data, "test.o".into()).unwrap();
    let sym = inv.symbols.iter().find(|s| s.name == "foo").unwrap();
    assert_eq!(sym.section.as_deref(), Some("__text"));
}

#[test]
fn symbol_inventory_has_symbol() {
    let inv = SymbolInventory {
        artifact_path: "test.o".into(),
        format: ArtifactFormat::ElfObject,
        platform: ArtifactPlatform::Elf,
        kind: ArtifactKind::Object,
        capabilities: ArtifactCapabilities {
            exports_symbols: true,
            imports_symbols: false,
        },
        dependency_edges: Vec::new(),
        symbols: vec![
            SymbolEntry {
                name: "foo".into(),
                raw_name: None,
                version: None,
                direction: SymbolDirection::Exported,
                reexported_via: Vec::new(),
                alias_of: None,
                function_abi: None,
                visibility: SymbolVisibility::Default,
                is_function: true,
                binding: SymbolBinding::Global,
                size: None,
                section: None,
                archive_member: None,
            },
            SymbolEntry {
                name: "bar".into(),
                raw_name: None,
                version: None,
                direction: SymbolDirection::Exported,
                reexported_via: Vec::new(),
                alias_of: None,
                function_abi: None,
                visibility: SymbolVisibility::Default,
                is_function: false,
                binding: SymbolBinding::Global,
                size: None,
                section: None,
                archive_member: None,
            },
        ],
    };
    assert!(inv.has_symbol("foo"));
    assert!(inv.has_symbol("bar"));
    assert!(!inv.has_symbol("baz"));
}

#[test]
fn symbol_inventory_function_names() {
    let inv = SymbolInventory {
        artifact_path: "test.o".into(),
        format: ArtifactFormat::ElfObject,
        platform: ArtifactPlatform::Elf,
        kind: ArtifactKind::Object,
        capabilities: ArtifactCapabilities {
            exports_symbols: true,
            imports_symbols: false,
        },
        dependency_edges: Vec::new(),
        symbols: vec![
            SymbolEntry {
                name: "func1".into(),
                raw_name: None,
                version: None,
                direction: SymbolDirection::Exported,
                reexported_via: Vec::new(),
                alias_of: None,
                function_abi: None,
                visibility: SymbolVisibility::Default,
                is_function: true,
                binding: SymbolBinding::Global,
                size: None,
                section: None,
                archive_member: None,
            },
            SymbolEntry {
                name: "data1".into(),
                raw_name: None,
                version: None,
                direction: SymbolDirection::Exported,
                reexported_via: Vec::new(),
                alias_of: None,
                function_abi: None,
                visibility: SymbolVisibility::Default,
                is_function: false,
                binding: SymbolBinding::Global,
                size: None,
                section: None,
                archive_member: None,
            },
            SymbolEntry {
                name: "func2".into(),
                raw_name: None,
                version: None,
                direction: SymbolDirection::Exported,
                reexported_via: Vec::new(),
                alias_of: None,
                function_abi: None,
                visibility: SymbolVisibility::Default,
                is_function: true,
                binding: SymbolBinding::Global,
                size: None,
                section: None,
                archive_member: None,
            },
        ],
    };
    let funcs = inv.function_names();
    assert_eq!(funcs, vec!["func1", "func2"]);
}

#[test]
fn import_library_detection_uses_windows_lib_heuristics() {
    let symbols = vec![SymbolEntry {
        name: "demo_init".into(),
        raw_name: Some("__imp_demo_init".into()),
        version: None,
        direction: SymbolDirection::Imported,
        reexported_via: Vec::new(),
        alias_of: None,
        function_abi: None,
        visibility: SymbolVisibility::Unknown,
        is_function: true,
        binding: SymbolBinding::Unknown,
        size: None,
        section: Some(".idata".into()),
        archive_member: Some("demo_import.obj".into()),
    }];
    assert!(is_probable_import_library("demo.lib", &symbols));
    assert!(!is_probable_import_library("libdemo.a", &symbols));
}

#[test]
fn linux_elf_support_matrix_capabilities_match_expectations() {
    let cases = [
        (
            ArtifactFormat::ElfObject,
            ArtifactKind::Object,
            ArtifactCapabilities {
                exports_symbols: true,
                imports_symbols: false,
            },
            Vec::<String>::new(),
        ),
        (
            ArtifactFormat::ElfStaticLibrary,
            ArtifactKind::StaticLibrary,
            ArtifactCapabilities {
                exports_symbols: true,
                imports_symbols: false,
            },
            Vec::<String>::new(),
        ),
        (
            ArtifactFormat::ElfSharedLibrary,
            ArtifactKind::SharedLibrary,
            ArtifactCapabilities {
                exports_symbols: true,
                imports_symbols: true,
            },
            vec!["libc.so.6".to_string()],
        ),
    ];

    for (format, kind, capabilities, dependency_edges) in cases {
        let inv = SymbolInventory {
            artifact_path: format!("{:?}", format),
            format,
            platform: ArtifactPlatform::Elf,
            kind,
            capabilities,
            dependency_edges,
            symbols: Vec::new(),
        };

        assert_eq!(inv.platform, ArtifactPlatform::Elf);
        assert!(inv.capabilities.exports_symbols);
        assert_eq!(
            inv.capabilities.imports_symbols,
            matches!(inv.kind, ArtifactKind::SharedLibrary | ArtifactKind::Executable)
        );
        if inv.kind == ArtifactKind::SharedLibrary {
            assert!(!inv.dependency_edges.is_empty());
        } else {
            assert!(inv.dependency_edges.is_empty());
        }
    }
}

#[test]
fn windows_coff_pe_support_matrix_capabilities_match_expectations() {
    let cases = [
        (
            ArtifactFormat::CoffObject,
            ArtifactKind::Object,
            ArtifactCapabilities {
                exports_symbols: true,
                imports_symbols: false,
            },
        ),
        (
            ArtifactFormat::CoffImportLibrary,
            ArtifactKind::ImportLibrary,
            ArtifactCapabilities {
                exports_symbols: false,
                imports_symbols: true,
            },
        ),
        (
            ArtifactFormat::PeExecutable,
            ArtifactKind::Executable,
            ArtifactCapabilities {
                exports_symbols: true,
                imports_symbols: true,
            },
        ),
        (
            ArtifactFormat::PeDynamicLibrary,
            ArtifactKind::SharedLibrary,
            ArtifactCapabilities {
                exports_symbols: true,
                imports_symbols: true,
            },
        ),
    ];

    for (format, kind, capabilities) in cases {
        let inv = SymbolInventory {
            artifact_path: format!("{:?}", format),
            format,
            platform: ArtifactPlatform::Windows,
            kind,
            capabilities,
            dependency_edges: Vec::new(),
            symbols: Vec::new(),
        };

        assert_eq!(inv.platform, ArtifactPlatform::Windows);
        assert_eq!(inv.capabilities.exports_symbols, inv.kind != ArtifactKind::ImportLibrary);
        assert_eq!(
            inv.capabilities.imports_symbols,
            inv.kind != ArtifactKind::Object
        );
    }
}

#[test]
fn parse_elf_needed_entries_extracts_dependencies() {
    let parsed = parse_elf_needed_entries(
        r#"
Dynamic section at offset 0x2de0 contains 3 entries:
  Tag        Type                         Name/Value
 0x0000000000000001 (NEEDED)             Shared library: [libm.so.6]
 0x0000000000000001 (NEEDED)             Shared library: [libc.so.6]
"#,
    );
    assert_eq!(parsed, vec!["libm.so.6".to_string(), "libc.so.6".to_string()]);
}

#[test]
fn attach_reexport_candidates_marks_imported_symbols_on_shared_artifacts() {
    let mut symbols = vec![
        SymbolEntry {
            name: "demo_init".into(),
            raw_name: Some("demo_init".into()),
            version: None,
            direction: SymbolDirection::Exported,
            reexported_via: Vec::new(),
            alias_of: None,
            function_abi: None,
            visibility: SymbolVisibility::Default,
            is_function: true,
            binding: SymbolBinding::Global,
            size: Some(32),
            section: Some(".text".into()),
            archive_member: None,
        },
        SymbolEntry {
            name: "puts".into(),
            raw_name: Some("puts".into()),
            version: Some("GLIBC_2.2.5".into()),
            direction: SymbolDirection::Imported,
            reexported_via: Vec::new(),
            alias_of: None,
            function_abi: None,
            visibility: SymbolVisibility::Default,
            is_function: true,
            binding: SymbolBinding::Global,
            size: None,
            section: None,
            archive_member: None,
        },
    ];

    attach_reexport_candidates(
        &mut symbols,
        &vec!["libc.so.6".into(), "libm.so.6".into()],
        ArtifactKind::SharedLibrary,
    );

    assert!(symbols[0].reexported_via.is_empty());
    assert_eq!(symbols[1].reexported_via, vec!["libc.so.6", "libm.so.6"]);
}

#[test]
fn assign_symbol_alias_marks_secondary_exported_name() {
    let mut primary_aliases = Vec::new();
    let mut primary = SymbolEntry {
        name: "demo_init".into(),
        raw_name: Some("demo_init".into()),
        version: None,
        direction: SymbolDirection::Exported,
        reexported_via: Vec::new(),
        alias_of: None,
        function_abi: None,
        visibility: SymbolVisibility::Default,
        is_function: true,
        binding: SymbolBinding::Global,
        size: Some(32),
        section: Some(".text".into()),
        archive_member: None,
    };
    let mut alias = SymbolEntry {
        name: "demo_alias".into(),
        raw_name: Some("demo_alias".into()),
        version: None,
        direction: SymbolDirection::Exported,
        reexported_via: Vec::new(),
        alias_of: None,
        function_abi: None,
        visibility: SymbolVisibility::Default,
        is_function: true,
        binding: SymbolBinding::Global,
        size: Some(32),
        section: Some(".text".into()),
        archive_member: None,
    };

    assign_symbol_alias(&mut primary_aliases, &mut primary, 0x1000);
    assign_symbol_alias(&mut primary_aliases, &mut alias, 0x1000);

    assert_eq!(primary.alias_of, None);
    assert_eq!(alias.alias_of.as_deref(), Some("demo_init"));
}

#[test]
fn normalize_elf_symbol_identity_preserves_version() {
    let (name, version) =
        normalize_symbol_identity("memcpy@@GLIBC_2.14", ObjectFormat::Elf);
    assert_eq!(name, "memcpy");
    assert_eq!(version.as_deref(), Some("GLIBC_2.14"));
}

#[test]
fn has_symbol_and_function_names_queries() {
    let inv = SymbolInventory {
        artifact_path: "test.o".into(),
        format: ArtifactFormat::ElfObject,
        platform: ArtifactPlatform::Elf,
        kind: ArtifactKind::Object,
        capabilities: ArtifactCapabilities {
            exports_symbols: true,
            imports_symbols: false,
        },
        dependency_edges: Vec::new(),
        symbols: vec![
            SymbolEntry {
                name: "alpha".into(),
                raw_name: None,
                version: None,
                direction: SymbolDirection::Exported,
                reexported_via: Vec::new(),
                alias_of: None,
                visibility: SymbolVisibility::Default,
                is_function: true,
                binding: SymbolBinding::Global,
                size: None,
                section: None,
                archive_member: None,
                function_abi: None,
            },
            SymbolEntry {
                name: "beta".into(),
                raw_name: None,
                version: None,
                direction: SymbolDirection::Exported,
                reexported_via: Vec::new(),
                alias_of: None,
                visibility: SymbolVisibility::Default,
                is_function: false,
                binding: SymbolBinding::Global,
                size: None,
                section: None,
                archive_member: None,
                function_abi: None,
            },
        ],
    };

    assert!(inv.has_symbol("alpha"));
    assert!(inv.has_symbol("beta"));
    assert!(!inv.has_symbol("gamma"));
    assert_eq!(inv.function_names(), vec!["alpha"]);
}


fn ar_archive(members: &[(&str, Vec<u8>)]) -> Vec<u8> {
    let mut out = b"!<arch>\n".to_vec();
    for (name, data) in members {
        out.extend_from_slice(format!("{:<16}", format!("{}/", name)).as_bytes());
        out.extend_from_slice(format!("{:<12}", 0).as_bytes());
        out.extend_from_slice(format!("{:<6}", 0).as_bytes());
        out.extend_from_slice(format!("{:<6}", 0).as_bytes());
        out.extend_from_slice(format!("{:<8}", 644).as_bytes());
        out.extend_from_slice(format!("{:<10}", data.len()).as_bytes());
        out.extend_from_slice(b"`\n");
        out.extend_from_slice(data);
        if data.len() % 2 == 1 {
            out.push(b'\n');
        }
    }
    out
}

#[test]
fn inspect_archive_lists_each_member_symbol_once() {
    let object = minimal_macho_object();
    let data = ar_archive(&[
        ("foo.o", object.clone()),
        ("bar.o", object.clone()),
        ("foo.o", object),
    ]);
    let inv = inspect_bytes(&data, "libfoo.a".into()).unwrap();
    assert_eq!(inv.artifact_path, "libfoo.a");
    assert_eq!(inv.format, ArtifactFormat::MachOStaticLibrary);
    assert_eq!(inv.platform, ArtifactPlatform::MachO);
    assert_eq!(inv.kind, ArtifactKind::StaticLibrary);
    let members: Vec<(String, Option<String>)> = inv
        .symbols
        .iter()
        .map(|s| (s.name.clone(), s.archive_member.clone()))
        .collect();
    assert_eq!(
        members,
        vec![
            ("foo".to_string(), Some("foo.o".to_string())),
            ("foo".to_string(), Some("bar.o".to_string())),
        ]
    );
}

#[test]
fn inspect_bytes_rejects_unknown_formats() {
    let err = inspect_bytes(b"plain text, not an object", "notes.txt".into()).unwrap_err();
    match err {
        linc::error::BicError::UnsupportedFormat { path, format } => {
            assert_eq!(path, "notes.txt");
            assert!(!format.is_empty());
        }
        other => panic!("unexpected error {:?}", other),
    }
}

#[test]
fn dependency_edges_come_from_readelf_needed_entries() {
    let data = minimal_macho_object();
    let mut inv = inspect_bytes(&data, "test.o".into()).unwrap();
    assert!(!linc::symbols::needs_dependency_edges(&inv));
    inv.platform = ArtifactPlatform::Elf;
    inv.kind = ArtifactKind::SharedLibrary;
    assert!(linc::symbols::needs_dependency_edges(&inv));
    linc::symbols::attach_dependency_edges(
        &mut inv,
        " 0x0000000000000001 (NEEDED)             Shared library: [libc.so.6]\n 0x000000000000000e (SONAME)             Library soname: [libfoo.so.1]\n",
    );
    assert_eq!(inv.dependency_edges, vec!["libc.so.6".to_string()]);
    assert_eq!(inv.artifact_path, "test.o");
}
