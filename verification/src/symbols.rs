//! Symbol inventories of native artifacts: what an object, archive or shared
//! library exports and imports.
use vstd::prelude::*;

use crate::text::{
    chars_of, clone_opt, contains_s, join2, ends_with, ends_with_s, find_s, lines_s, opt_str,
    starts_with, starts_with_s, str_eq, string_of_range, strs,
};
use crate::object_file::{
    object_dynamic_symbols, object_dynamic_symbols_of, object_format, object_format_of, object_kind,
    object_kind_of, object_parse_error_of, object_section_name, object_section_name_of,
    object_parse_error, object_symbol_table, object_symbol_table_of, archive_members, archive_members_of,
};
use crate::error::LincError;

verus! {

/// Native artifact format recognized by the symbol inventory layer.
#[derive(Debug, Clone, PartialEq, Eq)]
pub enum ArtifactFormat {
    ElfObject,
    ElfStaticLibrary,
    ElfSharedLibrary,
    MachOObject,
    MachODylib,
    MachOStaticLibrary,
    CoffObject,
    CoffImportLibrary,
    PeExecutable,
    PeDynamicLibrary,
    Unknown(String),
}

/// Coarse platform family associated with an inspected artifact.
#[derive(Debug, Clone, Copy, PartialEq, Eq, Structural)]
pub enum ArtifactPlatform {
    Elf,
    MachO,
    Windows,
    Unknown,
}

/// Coarse artifact kind associated with an inspected native file.
#[derive(Debug, Clone, Copy, PartialEq, Eq, Structural)]
pub enum ArtifactKind {
    Object,
    StaticLibrary,
    ImportLibrary,
    SharedLibrary,
    Executable,
    Unknown,
}

/// Capability summary for an inspected artifact (conservative, not a linker model).
#[derive(Debug, Clone, Copy, PartialEq, Eq, Default, Structural)]
pub struct ArtifactCapabilities {
    pub exports_symbols: bool,
    pub imports_symbols: bool,
}

/// Visibility reported for one symbol entry.
#[derive(Debug, Clone, Copy, PartialEq, Eq, Structural)]
pub enum SymbolVisibility {
    Default,
    Hidden,
    Protected,
    Internal,
    Unknown,
}

/// Binding strength reported for one symbol entry.
#[derive(Debug, Clone, Copy, PartialEq, Eq, Structural)]
pub enum SymbolBinding {
    Local,
    Global,
    Weak,
    Unknown,
}

/// Direction of the symbol relative to the inspected artifact.
#[derive(Debug, Clone, Copy, PartialEq, Eq, Hash, Structural)]
pub enum SymbolDirection {
    Exported,
    Imported,
}

/// Optional routine-level ABI hints preserved on one symbol when available.
#[derive(Debug, Clone, PartialEq, Eq)]
pub struct FunctionAbiHint {
    pub parameter_count: Option<usize>,
    pub return_size: Option<u64>,
    pub parameter_sizes: Vec<Option<u64>>,
}

/// One discovered symbol entry; `name` is the normalized match key and `raw_name`
/// keeps the original spelling when available.
#[derive(Debug, Clone, PartialEq, Eq)]
pub struct SymbolEntry {
    pub name: String,
    pub raw_name: Option<String>,
    pub version: Option<String>,
    pub direction: SymbolDirection,
    pub reexported_via: Vec<String>,
    pub alias_of: Option<String>,
    pub function_abi: Option<FunctionAbiHint>,
    pub visibility: SymbolVisibility,
    pub is_function: bool,
    pub binding: SymbolBinding,
    pub size: Option<u64>,
    pub section: Option<String>,
    pub archive_member: Option<String>,
}

/// Symbol inventory produced from one native artifact input; it describes the
/// inspected artifact only, not a transitive dependency graph.
#[derive(Debug, Clone, PartialEq, Eq)]
pub struct SymbolInventory {
    pub artifact_path: String,
    pub format: ArtifactFormat,
    pub platform: ArtifactPlatform,
    pub kind: ArtifactKind,
    pub capabilities: ArtifactCapabilities,
    pub dependency_edges: Vec<String>,
    pub symbols: Vec<SymbolEntry>,
}

pub open spec fn function_symbol_pred() -> spec_fn(SymbolEntry) -> bool {
    |s: SymbolEntry| s.is_function
}

impl SymbolInventory {
    pub fn has_symbol(&self, name: &str) -> (r: bool)
        ensures
            r == exists|i: int| 0 <= i < self.symbols@.len() && (#[trigger] self.symbols@[i]).name@ == name@,
    {
        let mut i: usize = 0;
        while i < self.symbols.len()
            invariant
                i <= self.symbols@.len(),
                forall|k: int| 0 <= k < i ==> (#[trigger] self.symbols@[k]).name@ != name@,
            decreases self.symbols@.len() - i,
        {
            if str_eq(self.symbols[i].name.as_str(), name) {
                return true;
            }
            i = i + 1;
        }
        false
    }

    /// Names of the function symbols, in inventory order.
    pub fn function_names(&self) -> (r: Vec<&str>)
        ensures
            r@.len() == self.symbols@.filter(function_symbol_pred()).len(),
            forall|i: int|
                0 <= i < r@.len() ==> r@[i]@ == self.symbols@.filter(function_symbol_pred())[i].name@,
    {
        let mut r: Vec<&str> = Vec::new();
        let mut i: usize = 0;
        while i < self.symbols.len()
            invariant
                i <= self.symbols@.len(),
                r@.len() == self.symbols@.subrange(0, i as int).filter(function_symbol_pred()).len(),
                forall|k: int|
                    0 <= k < r@.len() ==> r@[k]@ == self.symbols@.subrange(0, i as int).filter(
                        function_symbol_pred(),
                    )[k].name@,
            decreases self.symbols@.len() - i,
        {
            let ghost sub = self.symbols@.subrange(0, i + 1);
            assert(sub.drop_last() =~= self.symbols@.subrange(0, i as int));
            reveal_with_fuel(Seq::filter, 1);
            if self.symbols[i].is_function {
                r.push(self.symbols[i].name.as_str());
            }
            i = i + 1;
        }
        assert(self.symbols@.subrange(0, i as int) =~= self.symbols@);
        r
    }
}

// ---------------------------------------------------------------------------
// Raw symbols
// ---------------------------------------------------------------------------

/// Kind of a symbol as the symbol table gives it.
#[derive(Debug, Clone, Copy, PartialEq, Eq, Structural)]
pub enum RawSymbolKind {
    Unknown,
    Text,
    Data,
    Section,
    File,
    Label,
    Tls,
    Other,
}

/// Scope of a symbol as the symbol table gives it.
#[derive(Debug, Clone, Copy, PartialEq, Eq, Structural)]
pub enum RawSymbolScope {
    Unknown,
    Compilation,
    Linkage,
    Dynamic,
}

/// Format-specific flags of a symbol as the symbol table gives them.
#[derive(Debug, Clone, Copy, PartialEq, Eq, Structural)]
pub enum RawSymbolFlags {
    NoFlags,
    Elf { st_info: u8, st_other: u8 },
    MachO { n_desc: u16 },
    CoffSection { selection: u8, associative_section: Option<usize> },
    Xcoff { n_sclass: u8, x_smtyp: u8, x_smclas: u8, containing_csect: Option<usize> },
    Other,
}

/// One symbol-table entry of an object file, as plain values; `name` is absent when
/// the name could not be read.
#[derive(Debug, Clone, PartialEq, Eq)]
pub struct RawSymbol {
    pub name: Option<String>,
    pub is_definition: bool,
    pub is_global: bool,
    pub kind: RawSymbolKind,
    pub flags: RawSymbolFlags,
    pub scope: RawSymbolScope,
    pub size: u64,
    pub address: u64,
    pub section_index: Option<usize>,
}

/// One archive member as read: its name and data, or the message of the error
/// reading its header or its data.
#[derive(Debug, Clone, PartialEq, Eq)]
pub enum ArchiveMemberRead {
    Read { name: String, data: Vec<u8> },
    Unreadable(String),
    NoData(String),
}

// ---------------------------------------------------------------------------
// Artifact classification
// ---------------------------------------------------------------------------

/// Binary container format of an inspected object.
#[derive(Debug, Clone, Copy, PartialEq, Eq, Structural)]
pub enum ObjectFormat {
    Coff,
    Elf,
    MachO,
    Pe,
    Wasm,
    Xcoff,
    Other,
}

/// Kind of an inspected object file.
#[derive(Debug, Clone, Copy, PartialEq, Eq, Structural)]
pub enum ObjectFileKind {
    Unknown,
    Relocatable,
    Executable,
    Dynamic,
    Core,
}

/// Platform family of a container format.
pub open spec fn platform_of(format: ObjectFormat) -> ArtifactPlatform {
    match format {
        ObjectFormat::Elf => ArtifactPlatform::Elf,
        ObjectFormat::MachO => ArtifactPlatform::MachO,
        ObjectFormat::Coff | ObjectFormat::Pe => ArtifactPlatform::Windows,
        _ => ArtifactPlatform::Unknown,
    }
}

/// Artifact kind of an object kind.
pub open spec fn kind_of(kind: ObjectFileKind) -> ArtifactKind {
    match kind {
        ObjectFileKind::Relocatable => ArtifactKind::Object,
        ObjectFileKind::Dynamic => ArtifactKind::SharedLibrary,
        ObjectFileKind::Executable => ArtifactKind::Executable,
        _ => ArtifactKind::Unknown,
    }
}

/// Capabilities of an object kind: objects export, shared libraries and executables
/// export and import, others neither.
pub open spec fn capabilities_of(kind: ObjectFileKind) -> ArtifactCapabilities {
    match kind {
        ObjectFileKind::Relocatable => ArtifactCapabilities { exports_symbols: true, imports_symbols: false },
        ObjectFileKind::Dynamic | ObjectFileKind::Executable => ArtifactCapabilities {
            exports_symbols: true,
            imports_symbols: true,
        },
        _ => ArtifactCapabilities { exports_symbols: false, imports_symbols: false },
    }
}

pub fn classify_platform(format: ObjectFormat) -> (r: ArtifactPlatform)
    ensures
        r == platform_of(format),
{
    match format {
        ObjectFormat::Elf => ArtifactPlatform::Elf,
        ObjectFormat::MachO => ArtifactPlatform::MachO,
        ObjectFormat::Coff | ObjectFormat::Pe => ArtifactPlatform::Windows,
        _ => ArtifactPlatform::Unknown,
    }
}

pub fn classify_kind(kind: ObjectFileKind) -> (r: ArtifactKind)
    ensures
        r == kind_of(kind),
{
    match kind {
        ObjectFileKind::Relocatable => ArtifactKind::Object,
        ObjectFileKind::Dynamic => ArtifactKind::SharedLibrary,
        ObjectFileKind::Executable => ArtifactKind::Executable,
        _ => ArtifactKind::Unknown,
    }
}

pub fn classify_capabilities(kind: ObjectFileKind) -> (r: ArtifactCapabilities)
    ensures
        r == capabilities_of(kind),
{
    match kind {
        ObjectFileKind::Relocatable => ArtifactCapabilities {
            exports_symbols: true,
            imports_symbols: false,
        },
        ObjectFileKind::Dynamic | ObjectFileKind::Executable => ArtifactCapabilities {
            exports_symbols: true,
            imports_symbols: true,
        },
        _ => ArtifactCapabilities { exports_symbols: false, imports_symbols: false },
    }
}

/// Spelling of an object kind.
pub open spec fn kind_label(kind: ObjectFileKind) -> Seq<char> {
    match kind {
        ObjectFileKind::Unknown => "Unknown"@,
        ObjectFileKind::Relocatable => "Relocatable"@,
        ObjectFileKind::Executable => "Executable"@,
        ObjectFileKind::Dynamic => "Dynamic"@,
        ObjectFileKind::Core => "Core"@,
    }
}

/// Spelling of a container format.
pub open spec fn format_label(format: ObjectFormat) -> Seq<char> {
    match format {
        ObjectFormat::Coff => "Coff"@,
        ObjectFormat::Elf => "Elf"@,
        ObjectFormat::MachO => "MachO"@,
        ObjectFormat::Pe => "Pe"@,
        ObjectFormat::Wasm => "Wasm"@,
        ObjectFormat::Xcoff => "Xcoff"@,
        ObjectFormat::Other => "Other"@,
    }
}

/// Spelling of an object kind.
pub fn object_kind_name(kind: ObjectFileKind) -> (r: &'static str)
    ensures
        r@ == kind_label(kind),
{
    match kind {
        ObjectFileKind::Unknown => "Unknown",
        ObjectFileKind::Relocatable => "Relocatable",
        ObjectFileKind::Executable => "Executable",
        ObjectFileKind::Dynamic => "Dynamic",
        ObjectFileKind::Core => "Core",
    }
}

/// Spelling of a container format.
pub fn object_format_name(format: ObjectFormat) -> (r: &'static str)
    ensures
        r@ == format_label(format),
{
    match format {
        ObjectFormat::Coff => "Coff",
        ObjectFormat::Elf => "Elf",
        ObjectFormat::MachO => "MachO",
        ObjectFormat::Pe => "Pe",
        ObjectFormat::Wasm => "Wasm",
        ObjectFormat::Xcoff => "Xcoff",
        ObjectFormat::Other => "Other",
    }
}

/// The artifact format of an object of this container format and kind; one nobody
/// names is unknown, spelled by its format and kind.
pub open spec fn format_classified(r: ArtifactFormat, format: ObjectFormat, kind: ObjectFileKind) -> bool {
    match (format, kind) {
        (ObjectFormat::Elf, ObjectFileKind::Executable) | (ObjectFormat::Elf, ObjectFileKind::Dynamic) => r
            == ArtifactFormat::ElfSharedLibrary,
        (ObjectFormat::Elf, ObjectFileKind::Relocatable) => r == ArtifactFormat::ElfObject,
        (ObjectFormat::MachO, ObjectFileKind::Executable) | (ObjectFormat::MachO, ObjectFileKind::Dynamic) => r
            == ArtifactFormat::MachODylib,
        (ObjectFormat::MachO, ObjectFileKind::Relocatable) => r == ArtifactFormat::MachOObject,
        (ObjectFormat::Coff, ObjectFileKind::Relocatable) => r == ArtifactFormat::CoffObject,
        (ObjectFormat::Pe, ObjectFileKind::Executable) => r == ArtifactFormat::PeExecutable,
        (ObjectFormat::Pe, ObjectFileKind::Dynamic) => r == ArtifactFormat::PeDynamicLibrary,
        _ => r matches ArtifactFormat::Unknown(t) && t@ == unknown_format_text(format, kind),
    }
}

/// The artifact format of an object of this container format and kind.
pub fn classify_format(format: ObjectFormat, kind: ObjectFileKind) -> (r: ArtifactFormat)
    ensures
        format_classified(r, format, kind),
{
    match (format, kind) {
        (ObjectFormat::Elf, ObjectFileKind::Executable) | (ObjectFormat::Elf, ObjectFileKind::Dynamic) => {
            ArtifactFormat::ElfSharedLibrary
        },
        (ObjectFormat::Elf, ObjectFileKind::Relocatable) => ArtifactFormat::ElfObject,
        (ObjectFormat::MachO, ObjectFileKind::Executable) | (ObjectFormat::MachO, ObjectFileKind::Dynamic) => {
            ArtifactFormat::MachODylib
        },
        (ObjectFormat::MachO, ObjectFileKind::Relocatable) => ArtifactFormat::MachOObject,
        (ObjectFormat::Coff, ObjectFileKind::Relocatable) => ArtifactFormat::CoffObject,
        (ObjectFormat::Pe, ObjectFileKind::Executable) => ArtifactFormat::PeExecutable,
        (ObjectFormat::Pe, ObjectFileKind::Dynamic) => ArtifactFormat::PeDynamicLibrary,
        _ => {
            let mut text = object_format_name(format).to_owned();
            text.append(" ");
            text.append(object_kind_name(kind));
            ArtifactFormat::Unknown(text)
        },
    }
}

/// Whether a symbol of this direction is kept: exported symbols always, imported
/// ones only for global symbols of shared libraries and executables.
pub fn should_capture_symbol(kind: ObjectFileKind, is_global: bool, direction: SymbolDirection) -> (r:
    bool)
    ensures
        r == match direction {
            SymbolDirection::Exported => true,
            SymbolDirection::Imported => (kind == ObjectFileKind::Dynamic || kind
                == ObjectFileKind::Executable) && is_global,
        },
{
    match direction {
        SymbolDirection::Exported => true,
        SymbolDirection::Imported => matches!(kind, ObjectFileKind::Dynamic | ObjectFileKind::Executable)
            && is_global,
    }
}

// ---------------------------------------------------------------------------
// Symbol identity
// ---------------------------------------------------------------------------

/// (name, version) of a raw symbol: Mach-O drops one leading `_`; ELF splits off
/// a version after the first `@@`, else after the first `@`.
pub open spec fn spec_symbol_identity(raw: Seq<char>, format: ObjectFormat) -> (Seq<char>, Option<Seq<char>>) {
    let n = if format == ObjectFormat::MachO && raw.len() > 0 && raw[0] == '_' {
        raw.drop_first()
    } else {
        raw
    };
    if format == ObjectFormat::Elf {
        match find_s(n, seq!['@', '@']) {
            Some(i) => (n.subrange(0, i), Some(n.subrange(i + 2, n.len() as int))),
            None => match find_s(n, seq!['@']) {
                Some(i) => (n.subrange(0, i), Some(n.subrange(i + 1, n.len() as int))),
                None => (n, None),
            },
        }
    } else {
        (n, None)
    }
}

pub fn normalize_symbol_identity(raw_name: &str, format: ObjectFormat) -> (r: (String, Option<String>))
    ensures
        (r.0@, opt_str(r.1)) == spec_symbol_identity(raw_name@, format),
{
    let v = chars_of(raw_name);
    let start: usize = if format == ObjectFormat::MachO && v.len() > 0 && v[0] == '_' {
        1
    } else {
        0
    };
    let n = string_of_range(&v, start, v.len());
    let nv = chars_of(n.as_str());
    assert(nv@ =~= if format == ObjectFormat::MachO && raw_name@.len() > 0 && raw_name@[0] == '_' {
        raw_name@.drop_first()
    } else {
        raw_name@
    });
    if format == ObjectFormat::Elf {
        let at2: Vec<char> = vec!['@', '@'];
        assert(at2@ =~= seq!['@', '@']);
        let at1: Vec<char> = vec!['@'];
        assert(at1@ =~= seq!['@']);
        match crate::text::find_from_exec(&nv, &at2, 0) {
            Some(i) => {
                proof {
                    crate::text::lemma_find_from_some(nv@, at2@, 0);
                }
                return (string_of_range(&nv, 0, i), Some(string_of_range(&nv, i + 2, nv.len())));
            },
            None => {},
        }
        match crate::text::find_from_exec(&nv, &at1, 0) {
            Some(i) => {
                proof {
                    crate::text::lemma_find_from_some(nv@, at1@, 0);
                }
                return (string_of_range(&nv, 0, i), Some(string_of_range(&nv, i + 1, nv.len())));
            },
            None => {},
        }
    }
    (n, None)
}

/// `seq![c]` occurs at an index inside `s` exactly when `s` holds `c` there.
proof fn lemma_char_occurs_at(s: Seq<char>, c: char, k: int)
    requires
        0 <= k < s.len(),
    ensures
        crate::text::occurs_at(s, seq![c], k) <==> s[k] == c,
{
    assert(s.subrange(k, k + 1)[0] == s[k]);
    if s[k] == c {
        assert(s.subrange(k, k + 1) =~= seq![c]);
    }
}

/// An ELF symbol name splits at its first `@@`, else at its first `@`: the version is
/// present exactly when the raw name holds an `@`; the raw name is the name, the
/// separator and the version; the name never holds `@@`, and holds no `@` at all when
/// the raw name has no `@@`.
pub proof fn lemma_elf_identity_splits_version(raw: Seq<char>)
    ensures
        ({
            let (name, version) = spec_symbol_identity(raw, ObjectFormat::Elf);
            &&& version is None <==> !raw.contains('@')
            &&& version is None ==> name == raw
            &&& version matches Some(v) ==> (raw == name + seq!['@', '@'] + v || raw == name
                + seq!['@'] + v)
            &&& contains_s(raw, seq!['@', '@']) ==> (version matches Some(v) && raw == name + seq![
                '@',
                '@',
            ] + v)
            &&& !contains_s(name, seq!['@', '@'])
            &&& !contains_s(raw, seq!['@', '@']) ==> !name.contains('@')
        }),
{
    let at2 = seq!['@', '@'];
    let at1 = seq!['@'];
    crate::text::lemma_find_from_some(raw, at2, 0);
    crate::text::lemma_find_from_some(raw, at1, 0);
    let (name, version) = spec_symbol_identity(raw, ObjectFormat::Elf);
    match find_s(raw, at2) {
        Some(i) => {
            assert(raw.subrange(i, i + 2) =~= at2);
            assert(raw[i] == raw.subrange(i, i + 2)[0]);
            assert(raw.contains('@'));
            assert(name =~= raw.subrange(0, i));
            let v = raw.subrange(i + 2, raw.len() as int);
            assert(raw =~= name + at2 + v) by {
                assert forall|k: int| 0 <= k < raw.len() implies raw[k] == (name + at2 + v)[k] by {
                    if i <= k < i + 2 {
                        assert(raw[k] == raw.subrange(i, i + 2)[k - i]);
                    }
                }
            }
            assert(!contains_s(name, at2)) by {
                if contains_s(name, at2) {
                    let k = choose|k: int| crate::text::occurs_at(name, at2, k);
                    assert(name.subrange(k, k + 2) =~= raw.subrange(k, k + 2));
                    assert(crate::text::occurs_at(raw, at2, k));
                }
            }
        },
        None => {
            assert(!contains_s(raw, at2));
            match find_s(raw, at1) {
                Some(i) => {
                    lemma_char_occurs_at(raw, '@', i);
                    assert(raw.contains('@'));
                    assert(name =~= raw.subrange(0, i));
                    let v = raw.subrange(i + 1, raw.len() as int);
                    assert(raw =~= name + at1 + v);
                    assert(!name.contains('@')) by {
                        if name.contains('@') {
                            let k = choose|k: int| 0 <= k < name.len() && name[k] == '@';
                            lemma_char_occurs_at(raw, '@', k);
                        }
                    }
                    assert(!contains_s(name, at2)) by {
                        if contains_s(name, at2) {
                            let k = choose|k: int| crate::text::occurs_at(name, at2, k);
                            assert(name[k] == name.subrange(k, k + 2)[0]);
                        }
                    }
                },
                None => {
                    assert(name == raw);
                    assert(!raw.contains('@')) by {
                        if raw.contains('@') {
                            let k = choose|k: int| 0 <= k < raw.len() && raw[k] == '@';
                            lemma_char_occurs_at(raw, '@', k);
                        }
                    }
                    assert(!contains_s(name, at2)) by {
                        if contains_s(name, at2) {
                            let k = choose|k: int| crate::text::occurs_at(name, at2, k);
                            assert(name[k] == name.subrange(k, k + 2)[0]);
                        }
                    }
                },
            }
        },
    }
}

/// Mach-O names lose exactly one leading `_` and keep any `@`; other non-ELF names are
/// kept whole; neither carries a version.
pub proof fn lemma_non_elf_identity(raw: Seq<char>, format: ObjectFormat)
    requires
        format != ObjectFormat::Elf,
    ensures
        spec_symbol_identity(raw, format).1 is None,
        format == ObjectFormat::MachO ==> (if raw.len() > 0 && raw[0] == '_' {
            seq!['_'] + spec_symbol_identity(raw, format).0 == raw
        } else {
            spec_symbol_identity(raw, format).0 == raw
        }),
        format != ObjectFormat::MachO ==> spec_symbol_identity(raw, format).0 == raw,
{
    if format == ObjectFormat::MachO && raw.len() > 0 && raw[0] == '_' {
        assert(seq!['_'] + raw.drop_first() =~= raw);
    }
}

/// Windows import libraries: a `.lib` path with some `__imp_`-prefixed raw symbol.
pub open spec fn spec_probable_import_library(path: Seq<char>, symbols: Seq<SymbolEntry>) -> bool {
    ends_with_s(path, ".lib"@) && exists|i: int| 0 <= i < symbols.len() && imp_raw(#[trigger] symbols[i])
}

/// The raw name starts with `__imp_`.
pub open spec fn imp_raw(s: SymbolEntry) -> bool {
    s.raw_name matches Some(n) && starts_with_s(n@, "__imp_"@)
}

pub fn is_probable_import_library(artifact_path: &str, symbols: &Vec<SymbolEntry>) -> (r: bool)
    ensures
        r == spec_probable_import_library(artifact_path@, symbols@),
{
    let pv = chars_of(artifact_path);
    if !ends_with(&pv, ".lib") {
        return false;
    }
    let mut i: usize = 0;
    while i < symbols.len()
        invariant
            i <= symbols@.len(),
            ends_with_s(artifact_path@, ".lib"@),
            forall|k: int| 0 <= k < i ==> !imp_raw(#[trigger] symbols@[k]),
        decreases symbols@.len() - i,
    {
        match &symbols[i].raw_name {
            Some(n) => {
                let nv = chars_of(n.as_str());
                if starts_with(&nv, "__imp_") {
                    assert(imp_raw(symbols@[i as int]));
                    return true;
                }
            },
            None => {},
        }
        i = i + 1;
    }
    false
}

/// Imported symbols of shared libraries and executables record the artifact's
/// dependencies as the places they may be re-exported from.
pub open spec fn spec_reexports(
    old_symbols: Seq<SymbolEntry>,
    new_symbols: Seq<SymbolEntry>,
    deps: Seq<String>,
    kind: ArtifactKind,
) -> bool {
    &&& new_symbols.len() == old_symbols.len()
    &&& forall|i: int|
        0 <= i < old_symbols.len() ==> {
            let o = #[trigger] old_symbols[i];
            let n = new_symbols[i];
            if (kind == ArtifactKind::SharedLibrary || kind == ArtifactKind::Executable) && deps.len()
                > 0 && o.direction == SymbolDirection::Imported {
                n == SymbolEntry { reexported_via: n.reexported_via, ..o } && n.reexported_via@
                    == deps
            } else {
                n == o
            }
        }
}

pub fn attach_reexport_candidates(
    symbols: &mut Vec<SymbolEntry>,
    dependency_edges: &Vec<String>,
    kind: ArtifactKind,
)
    ensures
        spec_reexports(old(symbols)@, final(symbols)@, dependency_edges@, kind),
{
    if !matches!(kind, ArtifactKind::SharedLibrary | ArtifactKind::Executable)
        || dependency_edges.len() == 0 {
        return;
    }
    let ghost orig = symbols@;
    let mut i: usize = 0;
    while i < symbols.len()
        invariant
            i <= symbols@.len(),
            symbols@.len() == orig.len(),
            (kind == ArtifactKind::SharedLibrary || kind == ArtifactKind::Executable),
            dependency_edges@.len() > 0,
            forall|k: int|
                i <= k < orig.len() ==> #[trigger] symbols@[k] == orig[k],
            forall|k: int|
                0 <= k < i ==> {
                    let o = #[trigger] orig[k];
                    let n = symbols@[k];
                    if o.direction == SymbolDirection::Imported {
                        n == SymbolEntry { reexported_via: n.reexported_via, ..o }
                            && n.reexported_via@ == dependency_edges@
                    } else {
                        n == o
                    }
                },
        decreases symbols@.len() - i,
    {
        if symbols[i].direction == SymbolDirection::Imported {
            let deps = crate::text::clone_strings(dependency_edges);
            let mut s = symbols.remove(i);
            s.reexported_via = deps;
            symbols.insert(i, s);
        }
        i = i + 1;
    }
}

/// Key under which exported symbols at one address are aliases of each other.
#[derive(Debug, Clone, PartialEq, Eq)]
pub struct SymbolAliasKey {
    pub section: String,
    pub address: u64,
    pub is_function: bool,
    pub direction: SymbolDirection,
}

pub open spec fn same_key(a: SymbolAliasKey, b: SymbolAliasKey) -> bool {
    a.section@ == b.section@ && a.address == b.address && a.is_function == b.is_function
        && a.direction == b.direction
}

/// Index of the entry with this key, if any.
pub open spec fn key_index(table: Seq<(SymbolAliasKey, String)>, k: SymbolAliasKey) -> Option<int> {
    if exists|i: int| 0 <= i < table.len() && same_key(#[trigger] table[i].0, k) {
        Some(choose|i: int| 0 <= i < table.len() && same_key(#[trigger] table[i].0, k))
    } else {
        None
    }
}

/// No two entries share a key.
pub open spec fn keys_distinct(table: Seq<(SymbolAliasKey, String)>) -> bool {
    forall|i: int, j: int| 0 <= i < j < table.len() ==> !same_key(table[i].0, table[j].0)
}

/// In a table without repeated keys, the entry that carries a key is the one `key_index` finds.
pub proof fn lemma_key_index_unique(table: Seq<(SymbolAliasKey, String)>, k: SymbolAliasKey, i: int)
    requires
        keys_distinct(table),
        0 <= i < table.len(),
        same_key(table[i].0, k),
    ensures
        key_index(table, k) == Some(i),
{
    let j = choose|j: int| 0 <= j < table.len() && same_key(#[trigger] table[j].0, k);
    if j < i {
        assert(!same_key(table[j].0, table[i].0));
    } else if j > i {
        assert(!same_key(table[i].0, table[j].0));
    }
}

/// The alias key of an exported symbol with a section and a nonzero address.
pub open spec fn alias_key(symbol: SymbolEntry, address: u64) -> Option<SymbolAliasKey> {
    if symbol.direction == SymbolDirection::Exported && address != 0 && symbol.section is Some {
        Some(SymbolAliasKey {
            section: symbol.section->0,
            address,
            is_function: symbol.is_function,
            direction: SymbolDirection::Exported,
        })
    } else {
        None
    }
}

/// What one alias assignment does to the table and to the symbol.
pub open spec fn alias_assigned(
    table: Seq<(SymbolAliasKey, String)>,
    table2: Seq<(SymbolAliasKey, String)>,
    symbol: SymbolEntry,
    symbol2: SymbolEntry,
    address: u64,
) -> bool {
    match alias_key(symbol, address) {
        None => symbol2 == symbol && table2 == table,
        Some(key) => match key_index(table, key) {
            Some(i) => table2 == table && if table[i].1@ != symbol.name@ {
                symbol2 == SymbolEntry { alias_of: symbol2.alias_of, ..symbol }
                    && opt_str(symbol2.alias_of) == Some(table[i].1@)
            } else {
                symbol2 == symbol
            },
            None => symbol2 == symbol && table2 == table.push((key, symbol.name)),
        },
    }
}

/// The first exported name seen at a (section, address, kind) becomes the primary;
/// later exported symbols there with another name record it as `alias_of`.
pub fn assign_symbol_alias(
    primary_aliases: &mut Vec<(SymbolAliasKey, String)>,
    symbol: &mut SymbolEntry,
    address: u64,
)
    requires
        keys_distinct(old(primary_aliases)@),
    ensures
        keys_distinct(final(primary_aliases)@),
        alias_assigned(old(primary_aliases)@, final(primary_aliases)@, *old(symbol), *final(symbol), address),
{
    if symbol.direction != SymbolDirection::Exported || address == 0 {
        return;
    }
    let section = match &symbol.section {
        Some(s) => s.clone(),
        None => return,
    };
    let key = SymbolAliasKey {
        section,
        address,
        is_function: symbol.is_function,
        direction: SymbolDirection::Exported,
    };
    let mut i: usize = 0;
    while i < primary_aliases.len()
        invariant
            i <= primary_aliases@.len(),
            primary_aliases@ == old(primary_aliases)@,
            keys_distinct(primary_aliases@),
            *symbol == *old(symbol),
            symbol.direction == SymbolDirection::Exported,
            symbol.section == Some(key.section),
            key.address == address,
            address != 0,
            key.is_function == symbol.is_function,
            key.direction == SymbolDirection::Exported,
            forall|k: int| 0 <= k < i ==> !same_key(#[trigger] primary_aliases@[k].0, key),
        decreases primary_aliases@.len() - i,
    {
        let e = &primary_aliases[i].0;
        if str_eq(e.section.as_str(), key.section.as_str()) && e.address == key.address
            && e.is_function == key.is_function && e.direction == key.direction {
            proof {
                lemma_key_index_unique(primary_aliases@, key, i as int);
            }
            if !str_eq(primary_aliases[i].1.as_str(), symbol.name.as_str()) {
                symbol.alias_of = Some(primary_aliases[i].1.clone());
            }
            return;
        }
        i = i + 1;
    }
    let name = symbol.name.clone();
    primary_aliases.push((key, name));
    proof {
        assert(key_index(old(primary_aliases)@, key) is None);
        assert forall|a: int, b: int| 0 <= a < b < primary_aliases@.len() implies !same_key(
            primary_aliases@[a].0,
            primary_aliases@[b].0,
        ) by {
            if b == primary_aliases@.len() - 1 {
                assert(!same_key(old(primary_aliases)@[a].0, key));
            }
        }
    }
}

// ---------------------------------------------------------------------------
// Symbols of an object file
// ---------------------------------------------------------------------------

/// A symbol entry by its values, names by their characters.
pub struct SymbolModel {
    pub name: Seq<char>,
    pub raw_name: Option<Seq<char>>,
    pub version: Option<Seq<char>>,
    pub direction: SymbolDirection,
    pub reexported_via: Seq<Seq<char>>,
    pub alias_of: Option<Seq<char>>,
    pub function_abi: Option<FunctionAbiHint>,
    pub visibility: SymbolVisibility,
    pub is_function: bool,
    pub binding: SymbolBinding,
    pub size: Option<u64>,
    pub section: Option<Seq<char>>,
    pub archive_member: Option<Seq<char>>,
}

pub open spec fn symbol_model(e: SymbolEntry) -> SymbolModel {
    SymbolModel {
        name: e.name@,
        raw_name: opt_str(e.raw_name),
        version: opt_str(e.version),
        direction: e.direction,
        reexported_via: strs(e.reexported_via@),
        alias_of: opt_str(e.alias_of),
        function_abi: e.function_abi,
        visibility: e.visibility,
        is_function: e.is_function,
        binding: e.binding,
        size: e.size,
        section: opt_str(e.section),
        archive_member: opt_str(e.archive_member),
    }
}

pub open spec fn symbol_models(v: Seq<SymbolEntry>) -> Seq<SymbolModel> {
    v.map_values(|e: SymbolEntry| symbol_model(e))
}

/// Defined symbols are exported, the others imported.
pub open spec fn raw_direction(raw: RawSymbol) -> SymbolDirection {
    if raw.is_definition {
        SymbolDirection::Exported
    } else {
        SymbolDirection::Imported
    }
}

/// A symbol is kept when its name reads and is not empty, and its direction is kept.
pub open spec fn raw_captured(raw: RawSymbol, kind: ObjectFileKind) -> bool {
    &&& raw.name matches Some(n) && n@.len() > 0
    &&& match raw_direction(raw) {
        SymbolDirection::Exported => true,
        SymbolDirection::Imported => (kind == ObjectFileKind::Dynamic || kind == ObjectFileKind::Executable)
            && raw.is_global,
    }
}

/// Visibility: for ELF from `st_other`, for Mach-O from the scope; unknown otherwise.
pub open spec fn raw_visibility(raw: RawSymbol) -> SymbolVisibility {
    match raw.flags {
        RawSymbolFlags::Elf { st_info, st_other } => {
            let v = st_other & 3u8;
            if v == 0 {
                SymbolVisibility::Default
            } else if v == 1 {
                SymbolVisibility::Internal
            } else if v == 2 {
                SymbolVisibility::Hidden
            } else if v == 3 {
                SymbolVisibility::Protected
            } else {
                SymbolVisibility::Unknown
            }
        },
        RawSymbolFlags::MachO { n_desc } => match raw.scope {
            RawSymbolScope::Dynamic => SymbolVisibility::Default,
            RawSymbolScope::Linkage => SymbolVisibility::Hidden,
            RawSymbolScope::Compilation => SymbolVisibility::Hidden,
            RawSymbolScope::Unknown => SymbolVisibility::Unknown,
        },
        _ => SymbolVisibility::Unknown,
    }
}

/// Binding: for ELF from the high bits of `st_info`, for Mach-O weak by `N_WEAK_DEF`,
/// else global or local; unknown otherwise.
pub open spec fn raw_binding(raw: RawSymbol) -> SymbolBinding {
    match raw.flags {
        RawSymbolFlags::Elf { st_info, st_other } => {
            let b = st_info >> 4u8;
            if b == 0 {
                SymbolBinding::Local
            } else if b == 1 {
                SymbolBinding::Global
            } else if b == 2 {
                SymbolBinding::Weak
            } else {
                SymbolBinding::Unknown
            }
        },
        RawSymbolFlags::MachO { n_desc } => if n_desc & 0x0080u16 != 0 {
            SymbolBinding::Weak
        } else if raw.is_global {
            SymbolBinding::Global
        } else {
            SymbolBinding::Local
        },
        _ => SymbolBinding::Unknown,
    }
}

/// The entry a kept symbol becomes, before aliasing.
pub open spec fn raw_model(raw: RawSymbol, format: ObjectFormat, section: Option<String>) -> SymbolModel {
    let id = spec_symbol_identity(raw.name->0@, format);
    SymbolModel {
        name: id.0,
        raw_name: Some(raw.name->0@),
        version: id.1,
        direction: raw_direction(raw),
        reexported_via: seq![],
        alias_of: None,
        function_abi: None,
        visibility: raw_visibility(raw),
        is_function: raw.kind == RawSymbolKind::Text,
        binding: raw_binding(raw),
        size: if raw.size > 0 {
            Some(raw.size)
        } else {
            None
        },
        section: opt_str(section),
        archive_member: None,
    }
}

/// Aliasing key of an entry: section, address and whether it is a function, for an
/// exported entry with a section at a nonzero address.
pub open spec fn model_key(m: SymbolModel, address: u64) -> Option<(Seq<char>, u64, bool)> {
    if m.direction == SymbolDirection::Exported && address != 0 && m.section is Some {
        Some((m.section->0, address, m.is_function))
    } else {
        None
    }
}

/// The first of the first `upto` entries with this key.
pub open spec fn first_at_key(ms: Seq<SymbolModel>, addrs: Seq<u64>, key: (Seq<char>, u64, bool), upto: int) -> Option<int>
    decreases upto,
{
    if upto <= 0 {
        None
    } else {
        match first_at_key(ms, addrs, key, upto - 1) {
            Some(p) => Some(p),
            None => if model_key(ms[upto - 1], addrs[upto - 1]) == Some(key) {
                Some(upto - 1)
            } else {
                None
            },
        }
    }
}

/// The primary name an entry is an alias of: the first earlier entry with its key,
/// when that entry has another name.
pub open spec fn alias_for(ms: Seq<SymbolModel>, addrs: Seq<u64>, j: int) -> Option<Seq<char>> {
    match model_key(ms[j], addrs[j]) {
        None => None,
        Some(k) => match first_at_key(ms, addrs, k, j) {
            Some(p) => if ms[p].name != ms[j].name {
                Some(ms[p].name)
            } else {
                None
            },
            None => None,
        },
    }
}

/// The entries with their aliases recorded.
pub open spec fn with_aliases(ms: Seq<SymbolModel>, addrs: Seq<u64>) -> Seq<SymbolModel> {
    Seq::new(ms.len(), |j: int| SymbolModel { alias_of: alias_for(ms, addrs, j), ..ms[j] })
}

/// The section name of a symbol, by its section index.
pub open spec fn raw_section(data: Seq<u8>, raw: RawSymbol) -> Option<String> {
    match raw.section_index {
        Some(i) => object_section_name_of(data, i),
        None => None,
    }
}

/// The symbols of both symbol tables of an object file, regular first.
pub open spec fn object_raws(data: Seq<u8>) -> Seq<RawSymbol> {
    object_symbol_table_of(data) + object_dynamic_symbols_of(data)
}

pub open spec fn captured_pred(kind: ObjectFileKind) -> spec_fn(RawSymbol) -> bool {
    |raw: RawSymbol| raw_captured(raw, kind)
}

/// The kept symbols of an object file, in order.
pub open spec fn captured_raws(data: Seq<u8>) -> Seq<RawSymbol> {
    object_raws(data).filter(captured_pred(object_kind_of(data)))
}

/// The entries of the kept symbols of an object file, before aliasing.
pub open spec fn base_models(data: Seq<u8>) -> Seq<SymbolModel> {
    captured_raws(data).map_values(|raw: RawSymbol| raw_model(raw, object_format_of(data), raw_section(data, raw)))
}

pub open spec fn captured_addresses(data: Seq<u8>) -> Seq<u64> {
    captured_raws(data).map_values(|raw: RawSymbol| raw.address)
}

/// The symbol entries extracted from an object file.
pub open spec fn extracted_models(data: Seq<u8>) -> Seq<SymbolModel> {
    with_aliases(base_models(data), captured_addresses(data))
}

proof fn lemma_first_at_key_push(ms: Seq<SymbolModel>, addrs: Seq<u64>, x: SymbolModel, a: u64, key: (Seq<char>, u64, bool), upto: int)
    requires
        ms.len() == addrs.len(),
        upto <= ms.len(),
    ensures
        first_at_key(ms.push(x), addrs.push(a), key, upto) == first_at_key(ms, addrs, key, upto),
    decreases upto,
{
    if upto > 0 {
        lemma_first_at_key_push(ms, addrs, x, a, key, upto - 1);
        assert(ms.push(x)[upto - 1] == ms[upto - 1]);
        assert(addrs.push(a)[upto - 1] == addrs[upto - 1]);
    }
}

proof fn lemma_first_at_key_sound(ms: Seq<SymbolModel>, addrs: Seq<u64>, key: (Seq<char>, u64, bool), upto: int)
    ensures
        first_at_key(ms, addrs, key, upto) matches Some(p) ==> 0 <= p < upto && model_key(ms[p], addrs[p]) == Some(key),
    decreases upto,
{
    if upto > 0 {
        lemma_first_at_key_sound(ms, addrs, key, upto - 1);
    }
}

proof fn lemma_first_at_key_complete(ms: Seq<SymbolModel>, addrs: Seq<u64>, key: (Seq<char>, u64, bool), upto: int, p: int)
    requires
        0 <= p < upto,
        model_key(ms[p], addrs[p]) == Some(key),
    ensures
        first_at_key(ms, addrs, key, upto) is Some,
    decreases upto,
{
    if p < upto - 1 {
        lemma_first_at_key_complete(ms, addrs, key, upto - 1, p);
    }
}

/// The key a table entry records, by its values.
pub open spec fn key_view(k: SymbolAliasKey) -> (Seq<char>, u64, bool) {
    (k.section@, k.address, k.is_function)
}

/// The alias table records, for each key seen so far, the name of its first entry.
pub open spec fn alias_table_ok(table: Seq<(SymbolAliasKey, String)>, ms: Seq<SymbolModel>, addrs: Seq<u64>) -> bool {
    &&& ms.len() == addrs.len()
    &&& keys_distinct(table)
    &&& forall|t: int| 0 <= t < table.len() ==> (#[trigger] table[t]).0.direction == SymbolDirection::Exported
        && (first_at_key(ms, addrs, key_view(table[t].0), ms.len() as int) matches Some(p) && table[t].1@ == ms[p].name)
    &&& forall|p: int| 0 <= p < ms.len() && (#[trigger] model_key(ms[p], addrs[p])) is Some ==> exists|t: int|
        0 <= t < table.len() && key_view(#[trigger] table[t].0) == model_key(ms[p], addrs[p])->0
}

/// Records one more entry: its alias is assigned from the table, which learns its key.
fn push_symbol(
    symbols: &mut Vec<SymbolEntry>,
    table: &mut Vec<(SymbolAliasKey, String)>,
    entry: SymbolEntry,
    address: u64,
    Ghost(ms): Ghost<Seq<SymbolModel>>,
    Ghost(addrs): Ghost<Seq<u64>>,
)
    requires
        alias_table_ok(old(table)@, ms, addrs),
        symbol_models(old(symbols)@) == with_aliases(ms, addrs),
        entry.alias_of is None,
    ensures
        alias_table_ok(final(table)@, ms.push(symbol_model(entry)), addrs.push(address)),
        symbol_models(final(symbols)@) == with_aliases(ms.push(symbol_model(entry)), addrs.push(address)),
{
    let ghost m = symbol_model(entry);
    let ghost ms2 = ms.push(m);
    let ghost a2 = addrs.push(address);
    let ghost t0 = table@;
    let ghost e0 = entry;
    let ghost s0 = symbols@;
    let mut entry = entry;
    assign_symbol_alias(table, &mut entry, address);
    proof {
        let n = ms.len() as int;
        assert(ms2[n] == m);
        assert(a2[n] == address);
        assert forall|k: (Seq<char>, u64, bool), u: int| u <= n implies first_at_key(ms2, a2, k, u) == first_at_key(ms, addrs, k, u) by {
            lemma_first_at_key_push(ms, addrs, m, address, k, u);
        }
        match alias_key(e0, address) {
            None => {
                assert(model_key(m, address) is None);
            },
            Some(key) => {
                let kv = key_view(key);
                assert(model_key(m, address) == Some(kv));
                match key_index(t0, key) {
                    Some(i) => {
                        assert(same_key(t0[i].0, key));
                        assert(key_view(t0[i].0) == kv);
                        let p = first_at_key(ms, addrs, kv, n)->0;
                        assert(first_at_key(ms2, a2, kv, n) == Some(p));
                        lemma_first_at_key_sound(ms, addrs, kv, n);
                        assert(alias_for(ms2, a2, n) == (if ms[p].name != m.name { Some(ms[p].name) } else { None }));
                    },
                    None => {
                        if first_at_key(ms, addrs, kv, n) is Some {
                            let p = first_at_key(ms, addrs, kv, n)->0;
                            lemma_first_at_key_sound(ms, addrs, kv, n);
                            let t = choose|t: int| 0 <= t < t0.len() && key_view(#[trigger] t0[t].0) == model_key(ms[p], addrs[p])->0;
                            assert(same_key(t0[t].0, key));
                            assert(false);
                        }
                        assert(first_at_key(ms2, a2, kv, n + 1) == Some(n));
                    },
                }
            },
        }
        assert(symbol_model(entry) == SymbolModel { alias_of: alias_for(ms2, a2, n), ..m });
        let t1 = table@;
        assert forall|t: int| 0 <= t < t1.len() implies (#[trigger] t1[t]).0.direction == SymbolDirection::Exported
            && (first_at_key(ms2, a2, key_view(t1[t].0), ms2.len() as int) matches Some(p) && t1[t].1@ == ms2[p].name) by {
            if t < t0.len() {
                assert(t1[t] == t0[t]);
                let kv = key_view(t0[t].0);
                let p = first_at_key(ms, addrs, kv, n)->0;
                lemma_first_at_key_sound(ms, addrs, kv, n);
                assert(first_at_key(ms2, a2, kv, n) == Some(p));
                assert(ms2[p] == ms[p]);
            }
        }
        assert forall|p: int| 0 <= p < ms2.len() && (#[trigger] model_key(ms2[p], a2[p])) is Some implies exists|t: int|
            0 <= t < t1.len() && key_view(#[trigger] t1[t].0) == model_key(ms2[p], a2[p])->0 by {
            if p < n {
                assert(ms2[p] == ms[p]);
                assert(a2[p] == addrs[p]);
                let t = choose|t: int| 0 <= t < t0.len() && key_view(#[trigger] t0[t].0) == model_key(ms[p], addrs[p])->0;
                assert(t1[t] == t0[t]);
            } else {
                let key = alias_key(e0, address)->0;
                match key_index(t0, key) {
                    Some(i) => {
                        assert(same_key(t0[i].0, key));
                        assert(t1[i] == t0[i]);
                    },
                    None => {
                        assert(t1[t0.len() as int].0 == key);
                    },
                }
            }
        }
    }
    symbols.push(entry);
    proof {
        let n = ms.len() as int;
        let w = with_aliases(ms2, a2);
        let w0 = with_aliases(ms, addrs);
        assert forall|j: int| 0 <= j < n implies alias_for(ms2, a2, j) == alias_for(ms, addrs, j) by {
            assert(ms2[j] == ms[j]);
            assert(a2[j] == addrs[j]);
            match model_key(ms[j], addrs[j]) {
                Some(k) => {
                    lemma_first_at_key_push(ms, addrs, m, address, k, j);
                    lemma_first_at_key_sound(ms, addrs, k, j);
                    if first_at_key(ms, addrs, k, j) is Some {
                        let p = first_at_key(ms, addrs, k, j)->0;
                        assert(ms2[p] == ms[p]);
                    }
                },
                None => {},
            }
        }
        assert(symbol_models(s0).len() == s0.len());
        assert(w0.len() == ms.len());
        assert(symbols@ == s0.push(entry));
        assert(w[n] == SymbolModel { alias_of: alias_for(ms2, a2, n), ..ms2[n] });
        assert forall|j: int| 0 <= j < n + 1 implies symbol_models(symbols@)[j] == w[j] by {
            if j < n {
                assert(symbols@[j] == s0[j]);
                assert(symbol_models(s0)[j] == w0[j]);
                assert(ms2[j] == ms[j]);
            }
        }
        assert(symbol_models(symbols@) =~= w);
    }
}

fn raw_visibility_exec(raw: &RawSymbol) -> (r: SymbolVisibility)
    ensures
        r == raw_visibility(*raw),
{
    match raw.flags {
        RawSymbolFlags::Elf { st_info, st_other } => {
            let v = st_other & 3u8;
            if v == 0 {
                SymbolVisibility::Default
            } else if v == 1 {
                SymbolVisibility::Internal
            } else if v == 2 {
                SymbolVisibility::Hidden
            } else if v == 3 {
                SymbolVisibility::Protected
            } else {
                SymbolVisibility::Unknown
            }
        },
        RawSymbolFlags::MachO { n_desc } => match raw.scope {
            RawSymbolScope::Dynamic => SymbolVisibility::Default,
            RawSymbolScope::Linkage => SymbolVisibility::Hidden,
            RawSymbolScope::Compilation => SymbolVisibility::Hidden,
            RawSymbolScope::Unknown => SymbolVisibility::Unknown,
        },
        _ => SymbolVisibility::Unknown,
    }
}

fn raw_binding_exec(raw: &RawSymbol) -> (r: SymbolBinding)
    ensures
        r == raw_binding(*raw),
{
    match raw.flags {
        RawSymbolFlags::Elf { st_info, st_other } => {
            let b = st_info >> 4u8;
            if b == 0 {
                SymbolBinding::Local
            } else if b == 1 {
                SymbolBinding::Global
            } else if b == 2 {
                SymbolBinding::Weak
            } else {
                SymbolBinding::Unknown
            }
        },
        RawSymbolFlags::MachO { n_desc } => if n_desc & 0x0080u16 != 0 {
            SymbolBinding::Weak
        } else if raw.is_global {
            SymbolBinding::Global
        } else {
            SymbolBinding::Local
        },
        _ => SymbolBinding::Unknown,
    }
}

/// The symbol entries of an object file: every symbol of its regular and dynamic
/// symbol tables whose name reads and is kept (exported ones always, imported ones
/// only when global in a shared library or executable), with its normalized name and
/// version, visibility, binding, size and section, and the primary name it aliases.
pub fn extract_symbols_from_object(data: &[u8]) -> (r: Vec<SymbolEntry>)
    requires
        object_parse_error_of(data@) is None,
    ensures
        symbol_models(r@) == extracted_models(data@),
{
    let format = object_format(data);
    let kind = object_kind(data);
    let mut raws = object_symbol_table(data);
    let mut dynamic = object_dynamic_symbols(data);
    raws.append(&mut dynamic);
    let ghost all = raws@;
    let ghost pred = captured_pred(kind);
    let ghost model_of = |raw: RawSymbol| raw_model(raw, format, raw_section(data@, raw));
    let mut symbols: Vec<SymbolEntry> = Vec::new();
    let mut table: Vec<(SymbolAliasKey, String)> = Vec::new();
    let ghost mut ms: Seq<SymbolModel> = seq![];
    let ghost mut addrs: Seq<u64> = seq![];
    let mut i: usize = 0;
    proof {
        assert(all == object_raws(data@));
        assert(all.subrange(0, 0).filter(pred) =~= seq![]);
        assert(symbol_models(symbols@) =~= with_aliases(ms, addrs));
    }
    while i < raws.len()
        invariant
            i <= raws@.len(),
            raws@ == all,
            all == object_raws(data@),
            object_parse_error_of(data@) is None,
            format == object_format_of(data@),
            kind == object_kind_of(data@),
            pred == captured_pred(kind),
            model_of == (|raw: RawSymbol| raw_model(raw, format, raw_section(data@, raw))),
            ms == all.subrange(0, i as int).filter(pred).map_values(model_of),
            addrs == all.subrange(0, i as int).filter(pred).map_values(|raw: RawSymbol| raw.address),
            alias_table_ok(table@, ms, addrs),
            symbol_models(symbols@) == with_aliases(ms, addrs),
        decreases raws@.len() - i,
    {
        let ghost sub = all.subrange(0, i + 1);
        let ghost prev = all.subrange(0, i as int);
        proof {
            assert(sub.drop_last() =~= prev);
            assert(sub.last() == all[i as int]);
            reveal_with_fuel(Seq::filter, 1);
        }
        let raw = &raws[i];
        let kept = match &raw.name {
            Some(n) => !n.as_str().is_empty() && should_capture_symbol(
                kind,
                raw.is_global,
                if raw.is_definition {
                    SymbolDirection::Exported
                } else {
                    SymbolDirection::Imported
                },
            ),
            None => false,
        };
        assert(kept == raw_captured(*raw, kind));
        if kept {
            let raw_name = match &raw.name {
                Some(n) => n,
                None => {
                    return symbols;
                },
            };
            let (name, version) = normalize_symbol_identity(raw_name.as_str(), format);
            let section = match raw.section_index {
                Some(index) => object_section_name(data, index),
                None => None,
            };
            let ghost sec = section;
            let entry = SymbolEntry {
                name,
                raw_name: Some(raw_name.clone()),
                version,
                direction: if raw.is_definition {
                    SymbolDirection::Exported
                } else {
                    SymbolDirection::Imported
                },
                reexported_via: Vec::new(),
                alias_of: None,
                function_abi: None,
                visibility: raw_visibility_exec(raw),
                is_function: raw.kind == RawSymbolKind::Text,
                binding: raw_binding_exec(raw),
                size: if raw.size > 0 {
                    Some(raw.size)
                } else {
                    None
                },
                section,
                archive_member: None,
            };
            proof {
                assert(sec == raw_section(data@, *raw));
                assert(strs(entry.reexported_via@) =~= seq![]);
                assert(symbol_model(entry) == model_of(*raw));
                assert(sub.filter(pred) =~= prev.filter(pred).push(*raw));
                assert(sub.filter(pred).map_values(model_of) =~= ms.push(symbol_model(entry)));
                assert(sub.filter(pred).map_values(|raw: RawSymbol| raw.address) =~= addrs.push(raw.address));
            }
            push_symbol(&mut symbols, &mut table, entry, raw.address, Ghost(ms), Ghost(addrs));
            proof {
                ms = ms.push(symbol_model(entry));
                addrs = addrs.push(raw.address);
            }
        } else {
            proof {
                assert(sub.filter(pred) =~= prev.filter(pred));
            }
        }
        i = i + 1;
    }
    proof {
        assert(all.subrange(0, i as int) =~= all);
    }
    symbols
}

// ---------------------------------------------------------------------------
// Archives
// ---------------------------------------------------------------------------

/// The entries one archive member contributes: the symbols of its object, each
/// recorded as coming from the member; nothing when it is not an object file.
pub open spec fn member_models(m: ArchiveMemberRead) -> Seq<SymbolModel> {
    match m {
        ArchiveMemberRead::Read { name, data } => if object_parse_error_of(data@) is None {
            extracted_models(data@).map_values(|e: SymbolModel| SymbolModel { archive_member: Some(name@), ..e })
        } else {
            seq![]
        },
        _ => seq![],
    }
}

/// The entries of all members, in order.
pub open spec fn archive_models(ms: Seq<ArchiveMemberRead>) -> Seq<SymbolModel>
    decreases ms.len(),
{
    if ms.len() == 0 {
        seq![]
    } else {
        archive_models(ms.drop_last()) + member_models(ms.last())
    }
}

/// Whether some entry has this name and member.
pub open spec fn has_entry(ms: Seq<SymbolModel>, name: Seq<char>, member: Option<Seq<char>>) -> bool {
    exists|k: int| 0 <= k < ms.len() && (#[trigger] ms[k]).name == name && ms[k].archive_member == member
}

/// The entries with each (name, member) pair kept once, at its first occurrence.
pub open spec fn dedup_models(ms: Seq<SymbolModel>) -> Seq<SymbolModel>
    decreases ms.len(),
{
    if ms.len() == 0 {
        seq![]
    } else {
        let d = dedup_models(ms.drop_last());
        if has_entry(d, ms.last().name, ms.last().archive_member) {
            d
        } else {
            d.push(ms.last())
        }
    }
}

/// The message of the first member that could not be read.
pub open spec fn archive_error(ms: Seq<ArchiveMemberRead>) -> Option<Seq<char>>
    decreases ms.len(),
{
    if ms.len() == 0 {
        None
    } else {
        match archive_error(ms.drop_last()) {
            Some(e) => Some(e),
            None => match ms.last() {
                ArchiveMemberRead::Unreadable(e) => Some("failed to read archive member: "@ + e@),
                ArchiveMemberRead::NoData(e) => Some("failed to read archive member data: "@ + e@),
                _ => None,
            },
        }
    }
}

/// The container format of the first member that is an object file.
pub open spec fn first_format(ms: Seq<ArchiveMemberRead>) -> Option<ObjectFormat>
    decreases ms.len(),
{
    if ms.len() == 0 {
        None
    } else {
        match first_format(ms.drop_last()) {
            Some(f) => Some(f),
            None => match ms.last() {
                ArchiveMemberRead::Read { name, data } => if object_parse_error_of(data@) is None {
                    Some(object_format_of(data@))
                } else {
                    None
                },
                _ => None,
            },
        }
    }
}

/// The inventory of an archive: Mach-O archives and archives of ELF objects are static
/// libraries, COFF archives with a `.lib` path and `__imp_` symbols import libraries.
pub open spec fn archive_inventory(inv: SymbolInventory, path: String, ms: Seq<ArchiveMemberRead>) -> bool {
    let ff = first_format(ms);
    &&& inv.artifact_path == path
    &&& symbol_models(inv.symbols@) == dedup_models(archive_models(ms))
    &&& inv.dependency_edges@.len() == 0
    &&& if ff == Some(ObjectFormat::MachO) {
        &&& inv.format == ArtifactFormat::MachOStaticLibrary
        &&& inv.platform == ArtifactPlatform::MachO
        &&& inv.kind == ArtifactKind::StaticLibrary
        &&& inv.capabilities == (ArtifactCapabilities { exports_symbols: true, imports_symbols: false })
    } else if ff == Some(ObjectFormat::Coff) && spec_probable_import_library(path@, inv.symbols@) {
        &&& inv.format == ArtifactFormat::CoffImportLibrary
        &&& inv.platform == ArtifactPlatform::Windows
        &&& inv.kind == ArtifactKind::ImportLibrary
        &&& inv.capabilities == (ArtifactCapabilities { exports_symbols: false, imports_symbols: true })
    } else {
        &&& inv.format == ArtifactFormat::ElfStaticLibrary
        &&& inv.platform == ArtifactPlatform::Elf
        &&& inv.kind == ArtifactKind::StaticLibrary
        &&& inv.capabilities == (ArtifactCapabilities { exports_symbols: true, imports_symbols: false })
    }
}

/// An entry of an archive member, recorded as coming from it.
fn with_member(e: &SymbolEntry, member: &String) -> (r: SymbolEntry)
    requires
        e.function_abi is None,
    ensures
        symbol_model(r) == (SymbolModel { archive_member: Some(member@), ..symbol_model(*e) }),
{
    SymbolEntry {
        name: e.name.clone(),
        raw_name: clone_opt(&e.raw_name),
        version: clone_opt(&e.version),
        direction: e.direction,
        reexported_via: crate::text::clone_strings(&e.reexported_via),
        alias_of: clone_opt(&e.alias_of),
        function_abi: None,
        visibility: e.visibility,
        is_function: e.is_function,
        binding: e.binding,
        size: e.size,
        section: clone_opt(&e.section),
        archive_member: Some(member.clone()),
    }
}

/// Whether some kept entry has this name and member.
fn has_entry_exec(symbols: &Vec<SymbolEntry>, name: &String, member: &String) -> (r: bool)
    ensures
        r == has_entry(symbol_models(symbols@), name@, Some(member@)),
{
    let ghost ms = symbol_models(symbols@);
    let mut k: usize = 0;
    while k < symbols.len()
        invariant
            k <= symbols@.len(),
            ms == symbol_models(symbols@),
            forall|j: int| 0 <= j < k ==> !((#[trigger] ms[j]).name == name@ && ms[j].archive_member == Some(member@)),
        decreases symbols@.len() - k,
    {
        let same_member = match &symbols[k].archive_member {
            Some(m) => str_eq(m.as_str(), member.as_str()),
            None => false,
        };
        if same_member && str_eq(symbols[k].name.as_str(), name.as_str()) {
            assert(ms[k as int].name == name@ && ms[k as int].archive_member == Some(member@));
            return true;
        }
        k = k + 1;
    }
    false
}

/// Adds the entries of one member object, each pair of name and member once.
fn add_member_symbols(symbols: &mut Vec<SymbolEntry>, member: &String, data: &Vec<u8>, Ghost(before): Ghost<Seq<SymbolModel>>)
    requires
        object_parse_error_of(data@) is None,
        symbol_models(old(symbols)@) == dedup_models(before),
    ensures
        symbol_models(final(symbols)@) == dedup_models(before + member_models(ArchiveMemberRead::Read { name: *member, data: *data })),
{
    let extracted = extract_symbols_from_object(data.as_slice());
    let ghost mm = member_models(ArchiveMemberRead::Read { name: *member, data: *data });
    proof {
        assert(mm =~= extracted_models(data@).map_values(|e: SymbolModel| SymbolModel { archive_member: Some(member@), ..e }));
        assert(before + mm.subrange(0, 0) =~= before);
    }
    let mut k: usize = 0;
    while k < extracted.len()
        invariant
            k <= extracted@.len(),
            symbol_models(extracted@) == extracted_models(data@),
            mm == extracted_models(data@).map_values(|e: SymbolModel| SymbolModel { archive_member: Some(member@), ..e }),
            symbol_models(symbols@) == dedup_models(before + mm.subrange(0, k as int)),
        decreases extracted@.len() - k,
    {
        let ghost all = before + mm.subrange(0, k + 1);
        proof {
            assert(all.drop_last() =~= before + mm.subrange(0, k as int));
            assert(all.last() == mm[k as int]);
            assert(symbol_model(extracted@[k as int]) == extracted_models(data@)[k as int]);
            assert(extracted_models(data@)[k as int].function_abi is None);
        }
        let e = with_member(&extracted[k], member);
        if !has_entry_exec(symbols, &e.name, member) {
            let ghost old_syms = symbols@;
            symbols.push(e);
            assert(symbol_models(symbols@) =~= symbol_models(old_syms).push(symbol_model(e)));
        }
        k = k + 1;
    }
    assert(mm.subrange(0, k as int) =~= mm);
}

/// The inventory of an archive from its members: the symbols of every member that is
/// an object file, each recorded with its member and kept once per (name, member),
/// and the format, platform, kind and capabilities the members show. The first
/// member that could not be read fails the inspection.
pub fn inspect_archive(members: &Vec<ArchiveMemberRead>, artifact_path: String) -> (r: Result<SymbolInventory, LincError>)
    ensures
        match archive_error(members@) {
            Some(reason) => r matches Err(LincError::SymbolRead { path, reason: why }) && path == artifact_path
                && why@ == reason,
            None => r matches Ok(inv) && archive_inventory(inv, artifact_path, members@),
        },
{
    let mut symbols: Vec<SymbolEntry> = Vec::new();
    let mut format: Option<ObjectFormat> = None;
    let mut i: usize = 0;
    proof {
        assert(members@.subrange(0, 0) =~= seq![]);
        assert(symbol_models(symbols@) =~= seq![]);
    }
    while i < members.len()
        invariant
            i <= members@.len(),
            archive_error(members@.subrange(0, i as int)) is None,
            format == first_format(members@.subrange(0, i as int)),
            symbol_models(symbols@) == dedup_models(archive_models(members@.subrange(0, i as int))),
        decreases members@.len() - i,
    {
        let ghost sub = members@.subrange(0, i + 1);
        let ghost prev = members@.subrange(0, i as int);
        proof {
            assert(sub.drop_last() =~= prev);
            assert(sub.last() == members@[i as int]);
        }
        match &members[i] {
            ArchiveMemberRead::Unreadable(e) => {
                proof {
                    lemma_archive_error_prefix(members@, i as int + 1);
                }
                return Err(LincError::SymbolRead {
                    path: artifact_path,
                    reason: join2("failed to read archive member: ", e.as_str()),
                });
            },
            ArchiveMemberRead::NoData(e) => {
                proof {
                    lemma_archive_error_prefix(members@, i as int + 1);
                }
                return Err(LincError::SymbolRead {
                    path: artifact_path,
                    reason: join2("failed to read archive member data: ", e.as_str()),
                });
            },
            ArchiveMemberRead::Read { name, data } => {
                if object_parse_error(data.as_slice()).is_none() {
                    if format.is_none() {
                        format = Some(object_format(data.as_slice()));
                    }
                    add_member_symbols(&mut symbols, name, data, Ghost(archive_models(prev)));
                } else {
                    assert(archive_models(prev) + seq![] =~= archive_models(prev));
                }
            },
        }
        i = i + 1;
    }
    proof {
        assert(members@.subrange(0, i as int) =~= members@);
    }
    let (artifact_format, platform, kind, capabilities) = if format == Some(ObjectFormat::MachO) {
        (
            ArtifactFormat::MachOStaticLibrary,
            ArtifactPlatform::MachO,
            ArtifactKind::StaticLibrary,
            ArtifactCapabilities { exports_symbols: true, imports_symbols: false },
        )
    } else if format == Some(ObjectFormat::Coff) && is_probable_import_library(artifact_path.as_str(), &symbols) {
        (
            ArtifactFormat::CoffImportLibrary,
            ArtifactPlatform::Windows,
            ArtifactKind::ImportLibrary,
            ArtifactCapabilities { exports_symbols: false, imports_symbols: true },
        )
    } else {
        (
            ArtifactFormat::ElfStaticLibrary,
            ArtifactPlatform::Elf,
            ArtifactKind::StaticLibrary,
            ArtifactCapabilities { exports_symbols: true, imports_symbols: false },
        )
    };
    Ok(SymbolInventory {
        artifact_path,
        format: artifact_format,
        platform,
        kind,
        capabilities,
        dependency_edges: Vec::new(),
        symbols,
    })
}

/// An archive's inventory lists each (name, member) pair of its members' symbols exactly
/// once: no pair twice, every pair that some member provides, and only entries that some
/// member provides.
pub proof fn lemma_archive_entries_unique(ms: Seq<SymbolModel>)
    ensures
        ({
            let d = dedup_models(ms);
            &&& forall|i: int, j: int|
                0 <= i < j < d.len() ==> !(#[trigger] d[i].name == #[trigger] d[j].name
                    && d[i].archive_member == d[j].archive_member)
            &&& forall|k: int|
                0 <= k < ms.len() ==> has_entry(d, (#[trigger] ms[k]).name, ms[k].archive_member)
            &&& forall|k: int| 0 <= k < d.len() ==> ms.contains(#[trigger] d[k])
        }),
    decreases ms.len(),
{
    if ms.len() > 0 {
        let rest = ms.drop_last();
        lemma_archive_entries_unique(rest);
        let d0 = dedup_models(rest);
        let d = dedup_models(ms);
        let x = ms.last();
        assert forall|k: int| 0 <= k < ms.len() implies has_entry(
            d,
            (#[trigger] ms[k]).name,
            ms[k].archive_member,
        ) by {
            if k < rest.len() {
                assert(rest[k] == ms[k]);
                let w = choose|w: int|
                    0 <= w < d0.len() && (#[trigger] d0[w]).name == rest[k].name
                        && d0[w].archive_member == rest[k].archive_member;
                assert(d[w] == d0[w]);
            } else if !has_entry(d0, x.name, x.archive_member) {
                assert(d[d0.len() as int] == x);
            }
        }
        assert forall|k: int| 0 <= k < d.len() implies ms.contains(#[trigger] d[k]) by {
            if k < d0.len() {
                assert(d[k] == d0[k]);
                let w = choose|w: int| 0 <= w < rest.len() && rest[w] == d0[k];
                assert(ms[w] == rest[w]);
            } else {
                assert(ms[ms.len() - 1] == x);
            }
        }
    }
}

/// Once a member could not be read, the error stays the one of the first such member.
proof fn lemma_archive_error_prefix(ms: Seq<ArchiveMemberRead>, n: int)
    requires
        0 < n <= ms.len(),
        archive_error(ms.subrange(0, n - 1)) is None,
        !(ms[n - 1] is Read),
    ensures
        archive_error(ms) == archive_error(ms.subrange(0, n)),
        archive_error(ms) is Some,
    decreases ms.len(),
{
    let sub = ms.subrange(0, n);
    assert(sub.drop_last() =~= ms.subrange(0, n - 1));
    if n < ms.len() {
        assert(ms.drop_last().subrange(0, n - 1) =~= ms.subrange(0, n - 1));
        assert(ms.drop_last()[n - 1] == ms[n - 1]);
        lemma_archive_error_prefix(ms.drop_last(), n);
        assert(ms.drop_last().subrange(0, n) =~= sub);
    } else {
        assert(sub =~= ms);
    }
}

// ---------------------------------------------------------------------------
// Inspection
// ---------------------------------------------------------------------------

/// The text of the format of an object nobody names: container format and kind.
pub open spec fn unknown_format_text(format: ObjectFormat, kind: ObjectFileKind) -> Seq<char> {
    format_label(format) + " "@ + kind_label(kind)
}

/// The inventory of a single object file, before its dependencies are known.
pub open spec fn object_inventory(inv: SymbolInventory, path: String, data: Seq<u8>) -> bool {
    let format = object_format_of(data);
    let kind = object_kind_of(data);
    &&& inv.artifact_path == path
    &&& format_classified(inv.format, format, kind)
    &&& inv.platform == platform_of(format)
    &&& inv.kind == kind_of(kind)
    &&& inv.capabilities == capabilities_of(kind)
    &&& inv.dependency_edges@.len() == 0
    &&& symbol_models(inv.symbols@) == extracted_models(data)
}

/// The inventory of an artifact's bytes: an archive's members when the bytes are an
/// archive, else the object file they hold. Bytes that are neither give an
/// `UnsupportedFormat` error with the parser's message. Dependencies are not read
/// here: `attach_dependency_edges` adds them.
pub fn inspect_bytes(data: &[u8], artifact_path: String) -> (r: Result<SymbolInventory, LincError>)
    ensures
        match archive_members_of(data@) {
            Some(ms) => match archive_error(ms) {
                Some(reason) => r matches Err(LincError::SymbolRead { path, reason: why }) && path == artifact_path
                    && why@ == reason,
                None => r matches Ok(inv) && archive_inventory(inv, artifact_path, ms),
            },
            None => match object_parse_error_of(data@) {
                Some(e) => r matches Err(LincError::UnsupportedFormat { path, format }) && path == artifact_path
                    && format == e,
                None => r matches Ok(inv) && object_inventory(inv, artifact_path, data@),
            },
        },
{
    match archive_members(data) {
        Some(members) => {
            return inspect_archive(&members, artifact_path);
        },
        None => {},
    }
    match object_parse_error(data) {
        Some(e) => {
            return Err(LincError::UnsupportedFormat { path: artifact_path, format: e });
        },
        None => {},
    }
    let format = object_format(data);
    let kind = object_kind(data);
    let symbols = extract_symbols_from_object(data);
    Ok(SymbolInventory {
        artifact_path,
        format: classify_format(format, kind),
        platform: classify_platform(format),
        kind: classify_kind(kind),
        capabilities: classify_capabilities(kind),
        dependency_edges: Vec::new(),
        symbols,
    })
}

/// Dynamic dependencies are read for ELF shared libraries and executables only.
pub fn needs_dependency_edges(inventory: &SymbolInventory) -> (r: bool)
    ensures
        r == (inventory.platform == ArtifactPlatform::Elf && (inventory.kind == ArtifactKind::SharedLibrary
            || inventory.kind == ArtifactKind::Executable)),
{
    inventory.platform == ArtifactPlatform::Elf && (inventory.kind == ArtifactKind::SharedLibrary
        || inventory.kind == ArtifactKind::Executable)
}

/// Records the `(NEEDED)` entries of `readelf -d` output as the inventory's
/// dependencies, and attaches them to its imported symbols as re-export candidates.
pub fn attach_dependency_edges(inventory: &mut SymbolInventory, readelf_output: &str)
    ensures
        strs(final(inventory).dependency_edges@) == spec_needed_entries(readelf_output@),
        spec_reexports(old(inventory).symbols@, final(inventory).symbols@, final(inventory).dependency_edges@, old(inventory).kind),
        final(inventory).artifact_path == old(inventory).artifact_path,
        final(inventory).format == old(inventory).format,
        final(inventory).platform == old(inventory).platform,
        final(inventory).kind == old(inventory).kind,
        final(inventory).capabilities == old(inventory).capabilities,
{
    let edges = parse_elf_needed_entries(readelf_output);
    attach_reexport_candidates(&mut inventory.symbols, &edges, inventory.kind);
    inventory.dependency_edges = edges;
}

// ---------------------------------------------------------------------------
// Dynamic dependencies
// ---------------------------------------------------------------------------

/// Library name of a `readelf -d` line with a `(NEEDED)` entry: the text between
/// the first `[` after the marker and the next `]`.
pub open spec fn needed_entry(line: Seq<char>) -> Option<Seq<char>> {
    match find_s(line, "(NEEDED)"@) {
        None => None,
        Some(n) => {
            let after = line.subrange(n, line.len() as int);
            match find_s(after, seq!['[']) {
                None => None,
                Some(b) => {
                    let tail = after.subrange(b + 1, after.len() as int);
                    match find_s(tail, seq![']']) {
                        None => None,
                        Some(e) => Some(tail.subrange(0, e)),
                    }
                },
            }
        },
    }
}

/// The `(NEEDED)` library of one line.
fn needed_entry_exec(line: &Vec<char>) -> (r: Option<String>)
    ensures
        opt_str(r) == needed_entry(line@),
{
    let marker = chars_of("(NEEDED)");
    let n = match crate::text::find_from_exec(line, &marker, 0) {
        Some(n) => n,
        None => return None,
    };
    proof {
        crate::text::lemma_find_from_some(line@, "(NEEDED)"@, 0);
    }
    let ghost after = line@.subrange(n as int, line@.len() as int);
    let b = match crate::text::find_char_from(line, '[', n) {
        Some(b) => b,
        None => {
            proof {
                crate::text::lemma_find_from_shift(line@, seq!['['], n as int, n as int);
            }
            return None;
        },
    };
    proof {
        crate::text::lemma_find_from_shift(line@, seq!['['], n as int, n as int);
        crate::text::lemma_find_from_some(line@, seq!['['], n as int);
    }
    let ll = line.len();
    assert(b < ll);
    let t = b + 1;
    let ghost tail = after.subrange(b - n + 1, after.len() as int);
    assert(tail =~= line@.subrange(t as int, line@.len() as int));
    let e = match crate::text::find_char_from(line, ']', t) {
        Some(e) => e,
        None => {
            proof {
                crate::text::lemma_find_from_shift(line@, seq![']'], t as int, t as int);
            }
            return None;
        },
    };
    proof {
        crate::text::lemma_find_from_shift(line@, seq![']'], t as int, t as int);
        crate::text::lemma_find_from_some(line@, seq![']'], t as int);
    }
    assert(tail.subrange(0, e - t) =~= line@.subrange(t as int, e as int));
    Some(string_of_range(line, t, e))
}

/// Names of the `(NEEDED)` entries of `readelf -d` output.
pub fn parse_elf_needed_entries(stdout: &str) -> (r: Vec<String>)
    ensures
        strs(r@) == spec_needed_entries(stdout@),
{
    let v = chars_of(stdout);
    let lines = crate::text::lines_of(&v);
    let ghost ls = lines_s(stdout@);
    let mut r: Vec<String> = Vec::new();
    let mut i: usize = 0;
    while i < lines.len()
        invariant
            i <= lines@.len(),
            crate::text::char_vecs(lines@) == ls,
            strs(r@) == ls.subrange(0, i as int).filter_map(needed_entry_fn()),
        decreases lines@.len() - i,
    {
        let ghost sub = ls.subrange(0, i + 1);
        assert(sub.drop_last() =~= ls.subrange(0, i as int));
        assert(crate::text::char_vecs(lines@)[i as int] == lines@[i as int]@);
        let ghost before = strs(r@);
        match needed_entry_exec(&lines[i]) {
            Some(x) => {
                r.push(x);
                assert(strs(r@) =~= before + seq![needed_entry(lines@[i as int]@)->0]);
            },
            None => {
                assert(strs(r@) =~= before);
            },
        }
        i = i + 1;
    }
    assert(ls.subrange(0, i as int) =~= ls);
    r
}

pub open spec fn needed_entry_fn() -> spec_fn(Seq<char>) -> Option<Seq<char>> {
    |l: Seq<char>| needed_entry(l)
}

/// Names of the `(NEEDED)` entries of `readelf -d` output, in order.
pub open spec fn spec_needed_entries(stdout: Seq<char>) -> Seq<Seq<char>> {
    lines_s(stdout).filter_map(needed_entry_fn())
}

} // verus!
