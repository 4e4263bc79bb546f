//! Reading native object files and archives through the `object` crate. Each call
//! into the crate stands behind one trusted item that hands back plain values; what
//! the crate computes from the bytes is named, and the rest is verified logic in
//! `symbols`.
use object::{Object, ObjectSection, ObjectSymbol};
use vstd::prelude::*;

use crate::symbols::{
    ArchiveMemberRead, ObjectFileKind, ObjectFormat, RawSymbol, RawSymbolFlags, RawSymbolKind,
    RawSymbolScope,
};

verus! {

#[verifier::external_type_specification]
#[verifier::external_body]
pub struct ExBinaryFormat(object::BinaryFormat);

#[verifier::external_type_specification]
#[verifier::external_body]
pub struct ExObjectKind(object::ObjectKind);

#[verifier::external_type_specification]
#[verifier::external_body]
pub struct ExSymbolKind(object::SymbolKind);

#[verifier::external_type_specification]
#[verifier::external_body]
pub struct ExSymbolScope(object::SymbolScope);

#[verifier::external_type_specification]
#[verifier::external_body]
pub struct ExSectionIndex(object::SectionIndex);

#[verifier::external_type_specification]
#[verifier::external_body]
pub struct ExSymbolIndex(object::SymbolIndex);

#[verifier::external_type_specification]
#[verifier::external_body]
#[verifier::reject_recursive_types(Section)]
#[verifier::reject_recursive_types(Symbol)]
pub struct ExSymbolFlags<Section, Symbol>(object::SymbolFlags<Section, Symbol>);

/// The message of the error `object::File::parse` gives for these bytes, or nothing
/// when they parse as an object file.
pub uninterp spec fn object_parse_error_of(data: Seq<u8>) -> Option<String>;

/// `object::Object::format` of the object file these bytes hold.
pub uninterp spec fn object_format_of(data: Seq<u8>) -> ObjectFormat;

/// `object::Object::kind` of the object file these bytes hold.
pub uninterp spec fn object_kind_of(data: Seq<u8>) -> ObjectFileKind;

/// The entries of `object::Object::symbols` of the object file these bytes hold.
pub uninterp spec fn object_symbol_table_of(data: Seq<u8>) -> Seq<RawSymbol>;

/// The entries of `object::Object::dynamic_symbols` of the object file these bytes hold.
pub uninterp spec fn object_dynamic_symbols_of(data: Seq<u8>) -> Seq<RawSymbol>;

/// The name of the section with this index in the object file these bytes hold, when
/// `object::Object::section_by_index` finds it and its name reads.
pub uninterp spec fn object_section_name_of(data: Seq<u8>, index: usize) -> Option<String>;

/// The members of the archive these bytes hold, each read with its name and data or
/// the error reading it; nothing when `ArchiveFile::parse` rejects the bytes.
pub uninterp spec fn archive_members_of(data: Seq<u8>) -> Option<Seq<ArchiveMemberRead>>;

/// `object::File::parse`: the message of its error, if the bytes do not parse.
#[verifier::external_body]
pub(crate) fn object_parse_error(data: &[u8]) -> (r: Option<String>)
    ensures
        r == object_parse_error_of(data@),
{
    object::File::parse(data).err().map(|e| e.to_string())
}

/// `object::BinaryFormat` as this library spells it.
#[verifier::external_body]
fn format_from(f: object::BinaryFormat) -> ObjectFormat {
    match f {
        object::BinaryFormat::Coff => ObjectFormat::Coff,
        object::BinaryFormat::Elf => ObjectFormat::Elf,
        object::BinaryFormat::MachO => ObjectFormat::MachO,
        object::BinaryFormat::Pe => ObjectFormat::Pe,
        object::BinaryFormat::Wasm => ObjectFormat::Wasm,
        object::BinaryFormat::Xcoff => ObjectFormat::Xcoff,
        _ => ObjectFormat::Other,
    }
}

/// `object::ObjectKind` as this library spells it.
#[verifier::external_body]
fn kind_from(k: object::ObjectKind) -> ObjectFileKind {
    match k {
        object::ObjectKind::Unknown => ObjectFileKind::Unknown,
        object::ObjectKind::Relocatable => ObjectFileKind::Relocatable,
        object::ObjectKind::Executable => ObjectFileKind::Executable,
        object::ObjectKind::Dynamic => ObjectFileKind::Dynamic,
        object::ObjectKind::Core => ObjectFileKind::Core,
        _ => ObjectFileKind::Unknown,
    }
}

/// `object::SymbolKind` as this library spells it.
#[verifier::external_body]
fn symbol_kind_from(k: object::SymbolKind) -> RawSymbolKind {
    match k {
        object::SymbolKind::Unknown => RawSymbolKind::Unknown,
        object::SymbolKind::Text => RawSymbolKind::Text,
        object::SymbolKind::Data => RawSymbolKind::Data,
        object::SymbolKind::Section => RawSymbolKind::Section,
        object::SymbolKind::File => RawSymbolKind::File,
        object::SymbolKind::Label => RawSymbolKind::Label,
        object::SymbolKind::Tls => RawSymbolKind::Tls,
        _ => RawSymbolKind::Other,
    }
}

/// `object::SymbolScope` as this library spells it.
#[verifier::external_body]
fn symbol_scope_from(s: object::SymbolScope) -> RawSymbolScope {
    match s {
        object::SymbolScope::Unknown => RawSymbolScope::Unknown,
        object::SymbolScope::Compilation => RawSymbolScope::Compilation,
        object::SymbolScope::Linkage => RawSymbolScope::Linkage,
        object::SymbolScope::Dynamic => RawSymbolScope::Dynamic,
    }
}

/// `object::SymbolFlags` as this library spells it, indices as plain numbers.
#[verifier::external_body]
fn symbol_flags_from(f: object::SymbolFlags<object::SectionIndex, object::SymbolIndex>) -> RawSymbolFlags {
    match f {
        object::SymbolFlags::None => RawSymbolFlags::NoFlags,
        object::SymbolFlags::Elf { st_info, st_other } => RawSymbolFlags::Elf { st_info, st_other },
        object::SymbolFlags::MachO { n_desc } => RawSymbolFlags::MachO { n_desc },
        object::SymbolFlags::CoffSection { selection, associative_section } =>
            RawSymbolFlags::CoffSection { selection, associative_section: associative_section.map(|s| s.0) },
        object::SymbolFlags::Xcoff { n_sclass, x_smtyp, x_smclas, containing_csect } =>
            RawSymbolFlags::Xcoff { n_sclass, x_smtyp, x_smclas, containing_csect: containing_csect.map(|s| s.0) },
        _ => RawSymbolFlags::Other,
    }
}

/// `object::Object::format` of the object file these bytes hold.
#[verifier::external_body]
pub(crate) fn object_format(data: &[u8]) -> (r: ObjectFormat)
    requires
        object_parse_error_of(data@) is None,
    ensures
        r == object_format_of(data@),
{
    match object::File::parse(data) {
        Ok(file) => format_from(file.format()),
        Err(_) => ObjectFormat::Other,
    }
}

/// `object::Object::kind` of the object file these bytes hold.
#[verifier::external_body]
pub(crate) fn object_kind(data: &[u8]) -> (r: ObjectFileKind)
    requires
        object_parse_error_of(data@) is None,
    ensures
        r == object_kind_of(data@),
{
    match object::File::parse(data) {
        Ok(file) => kind_from(file.kind()),
        Err(_) => ObjectFileKind::Unknown,
    }
}

/// `object::Object::symbols` of the object file these bytes hold, each entry as
/// plain values.
#[verifier::external_body]
pub(crate) fn object_symbol_table(data: &[u8]) -> (r: Vec<RawSymbol>)
    requires
        object_parse_error_of(data@) is None,
    ensures
        r@ == object_symbol_table_of(data@),
{
    let file = match object::File::parse(data) { Ok(f) => f, Err(_) => return Vec::new() };
    file.symbols().map(|s| RawSymbol {
        name: s.name().ok().map(|n| n.to_owned()), is_definition: s.is_definition(),
        is_global: s.is_global(), kind: symbol_kind_from(s.kind()), flags: symbol_flags_from(s.flags()),
        scope: symbol_scope_from(s.scope()), size: s.size(), address: s.address(),
        section_index: s.section_index().map(|i| i.0),
    }).collect()
}

/// `object::Object::dynamic_symbols` of the object file these bytes hold, each entry
/// as plain values.
#[verifier::external_body]
pub(crate) fn object_dynamic_symbols(data: &[u8]) -> (r: Vec<RawSymbol>)
    requires
        object_parse_error_of(data@) is None,
    ensures
        r@ == object_dynamic_symbols_of(data@),
{
    let file = match object::File::parse(data) { Ok(f) => f, Err(_) => return Vec::new() };
    file.dynamic_symbols().map(|s| RawSymbol {
        name: s.name().ok().map(|n| n.to_owned()), is_definition: s.is_definition(),
        is_global: s.is_global(), kind: symbol_kind_from(s.kind()), flags: symbol_flags_from(s.flags()),
        scope: symbol_scope_from(s.scope()), size: s.size(), address: s.address(),
        section_index: s.section_index().map(|i| i.0),
    }).collect()
}

/// `object::Object::section_by_index`, then the section's name.
#[verifier::external_body]
pub(crate) fn object_section_name(data: &[u8], index: usize) -> (r: Option<String>)
    requires
        object_parse_error_of(data@) is None,
    ensures
        r == object_section_name_of(data@, index),
{
    let file = object::File::parse(data).ok()?;
    let section = file.section_by_index(object::SectionIndex(index)).ok()?;
    section.name().ok().map(|n| n.to_owned())
}

/// `ArchiveFile::parse` and the members it lists: each member's name (decoded
/// lossily) and data, or the message of the error reading its header or its data.
#[verifier::external_body]
pub(crate) fn archive_members(data: &[u8]) -> (r: Option<Vec<ArchiveMemberRead>>)
    ensures
        match r {
            Some(v) => archive_members_of(data@) == Some(v@),
            None => archive_members_of(data@) is None,
        },
{
    let archive = object::read::archive::ArchiveFile::parse(data).ok()?;
    Some(archive.members().map(|m| match m {
        Err(e) => ArchiveMemberRead::Unreadable(e.to_string()),
        Ok(m) => match m.data(data) {
            Ok(d) => ArchiveMemberRead::Read { name: String::from_utf8_lossy(m.name()).into_owned(), data: d.to_vec() },
            Err(e) => ArchiveMemberRead::NoData(e.to_string()),
        },
    }).collect())
}

} // verus!
