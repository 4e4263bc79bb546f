//! Raw-header scan configuration and the source-independent steps of a scan: the
//! package metadata a configuration implies, macro capture from `-dD` output,
//! typedef canonicalization, probe evidence and declaration provenance.
use vstd::prelude::*;

use crate::error::{error_text, LincError};
use crate::diagnostics::{Diagnostic, Severity};
use crate::probe::AbiProbeReport;
use crate::ir::{SCHEMA_VERSION, LINC_VERSION};
use crate::ir::{has_new_metadata, keep_pred, kept_provenance};
use crate::ir::{
    BindingDefine, BindingInputs, BindingLinkSurface, BindingPackage, BindingTarget,
    LinkArtifact, LinkArtifactKind, LinkFramework, LinkInput, LinkLibrary, LinkLibraryKind,
    LinkRequirementSource, LinkResolutionMode, NativeSurfaceKind,
};
use crate::diagnostics::DiagnosticKind;
use crate::ir::types::{item_kind, item_name, item_offset, item_offset_exec};
use crate::ir::types::{lemma_same_type_model, lemma_type_models_index, type_model, type_models, TypeModel};
use crate::ir::{AbiConfidence, EnumBinding, EnumRepresentation, FieldBinding, FieldLayout, RecordBinding, RecordKind, RecordRepresentation};
use crate::probe::{ProbeSubjectReport, ProbedFieldLayout, RecordCompleteness};
use crate::ir::{AliasResolution, BindingItem, BindingType, TypeAliasBinding, DeclarationProvenance, MacroEnvironmentEntry, MacroProvenance};
use crate::line_markers::{
    lemma_byte_len_ge_len, lemma_byte_len_split, markers_from, FileOriginMap, OriginFilter,
    SourceLocation,
};
use crate::ir::link::{copy_artifacts, copy_frameworks, copy_inputs, copy_libraries};
use crate::ir::{MacroBinding, MacroCategory, MacroForm, MacroKind, MacroValue};
use crate::text::{
    byte_len, char_vecs, chars_of, clone_opt, join2, find_from, opt_str, clone_strings, contains, contains_s, ends_with, ends_with_s,
    find_char_from, find_char_s, has_char, is_whitespace, is_ws, join3, lines_s, lower_ascii,
    lower_ascii_chars, parse_i128_range, parse_i128_s, replace_chars, replace_s, slice_chars,
    starts_with, starts_with_s, str_eq, string_of, strs, strs_ref, trim_range, trim_s,
};

verus! {

/// High-level scan configuration for turning headers into a `BindingPackage`.
///
/// Builder methods append in declaration order; validation runs before
/// preprocessing, extraction or probing. Paths are kept as the strings given.
#[derive(Debug, Clone)]
pub struct HeaderConfig {
    /// Entry-point headers that define the intended bind surface.
    pub entry_headers: Vec<String>,
    /// Preprocessor/header search inputs used to make those headers parse correctly.
    pub include_dirs: Vec<String>,
    /// Framework search roots for Apple-style native dependency declarations.
    pub framework_dirs: Vec<String>,
    /// Native library search roots preserved as part of the package link surface.
    pub library_dirs: Vec<String>,
    /// Preprocessor defines that shape the extracted API and ABI surface.
    pub defines: Vec<(String, Option<String>)>,
    /// Declared native library-name requirements.
    pub link_libraries: Vec<LinkLibrary>,
    /// Declared framework requirements.
    pub link_frameworks: Vec<LinkFramework>,
    /// Declared concrete native artifact requirements.
    pub link_artifacts: Vec<LinkArtifact>,
    /// The original declared link-input order across libraries, frameworks, and artifacts.
    pub ordered_link_inputs: Vec<LinkInput>,
    /// Policy preference for static vs dynamic resolution.
    pub preferred_link_mode: LinkResolutionMode,
    /// Package-level target applicability hints.
    pub platform_constraints: Vec<String>,
    /// Requested ABI probe subjects to attach to the produced package.
    pub probe_types: Vec<String>,
    /// Compiler or driver used for preprocessing and ABI probing.
    pub compiler: Option<String>,
    /// C dialect / compiler-flavor assumptions for preprocessing and parsing.
    pub flavor: Option<Flavor>,
    /// Post-extraction source-origin filtering policy.
    pub origin_filter: Option<OriginFilter>,
}

/// Preprocessing/parser flavor used for scan and probe operations.
#[derive(Debug, Clone, Copy, PartialEq, Eq, Structural)]
pub enum Flavor {
    GnuC11,
    ClangC11,
    StdC11,
}

/// Effective preprocessing invocation details for one scan: execution provenance,
/// not a replayable build graph.
#[derive(Debug, Clone)]
pub struct PreprocessingReport {
    pub command: String,
    pub args: Vec<String>,
    pub preprocessed_source: String,
}

/// Successful output of a raw-header scan: the package is the machine contract, the
/// report the execution evidence that produced it.
#[derive(Debug)]
pub struct RawHeaderResult {
    pub package: BindingPackage,
    pub report: PreprocessingReport,
}

/// Borrowed view over the preprocessing-related portion of `HeaderConfig`.
#[derive(Debug, Clone, Copy)]
pub struct PreprocessingConfigRef<'a> {
    pub include_dirs: &'a [String],
    pub defines: &'a [(String, Option<String>)],
    pub compiler: Option<&'a str>,
    pub flavor: Option<Flavor>,
}

/// Borrowed view over the entry-header surface of `HeaderConfig`.
#[derive(Debug, Clone, Copy)]
pub struct BindingSurfaceConfigRef<'a> {
    pub entry_headers: &'a [String],
}

/// Borrowed view over the native-link portion of `HeaderConfig`.
#[derive(Debug, Clone, Copy)]
pub struct LinkConfigRef<'a> {
    pub framework_dirs: &'a [String],
    pub library_dirs: &'a [String],
    pub link_libraries: &'a [LinkLibrary],
    pub link_frameworks: &'a [LinkFramework],
    pub link_artifacts: &'a [LinkArtifact],
    pub ordered_link_inputs: &'a [LinkInput],
    pub preferred_link_mode: LinkResolutionMode,
    pub platform_constraints: &'a [String],
}

/// Borrowed view over the probe request portion of `HeaderConfig`.
#[derive(Debug, Clone, Copy)]
pub struct ProbeConfigRef<'a> {
    pub probe_types: &'a [String],
}

/// `new` is `old` with one more string, holding `s`.
pub open spec fn appended(old: Seq<String>, new: Seq<String>, s: Seq<char>) -> bool {
    new.len() == old.len() + 1 && new.drop_last() == old && new.last()@ == s
}

/// `new` is `old` followed by strings holding `xs`, in order.
pub open spec fn extended(old: Seq<String>, new: Seq<String>, xs: Seq<Seq<char>>) -> bool {
    new.len() == old.len() + xs.len() && new.subrange(0, old.len() as int) == old && forall|i: int|
        0 <= i < xs.len() ==> (#[trigger] new[old.len() + i])@ == xs[i]
}

/// A library requirement by its values.
pub open spec fn is_library(l: LinkLibrary, name: Seq<char>, kind: LinkLibraryKind) -> bool {
    l.name@ == name && l.kind == kind && l.source == LinkRequirementSource::Declared
}

/// An artifact requirement by its values.
pub open spec fn is_artifact(a: LinkArtifact, path: Seq<char>, kind: LinkArtifactKind) -> bool {
    a.path@ == path && a.kind == kind && a.source == LinkRequirementSource::Declared
}

/// The configuration `HeaderConfig::new` makes: nothing declared, default link mode,
/// no compiler or flavor, and the default origin filter.
pub open spec fn is_new_config(c: HeaderConfig) -> bool {
    &&& c.entry_headers@.len() == 0 && c.include_dirs@.len() == 0
    &&& c.framework_dirs@.len() == 0 && c.library_dirs@.len() == 0
    &&& c.defines@.len() == 0 && c.link_libraries@.len() == 0
    &&& c.link_frameworks@.len() == 0 && c.link_artifacts@.len() == 0
    &&& c.ordered_link_inputs@.len() == 0
    &&& c.preferred_link_mode == LinkResolutionMode::Default
    &&& c.platform_constraints@.len() == 0 && c.probe_types@.len() == 0
    &&& c.compiler.is_none() && c.flavor.is_none()
    &&& c.origin_filter matches Some(f) && f.include_entry && f.include_user && !f.include_system
}

impl Default for HeaderConfig {
    fn default() -> (r: Self)
        ensures
            is_new_config(r),
    {
        Self::new()
    }
}

impl HeaderConfig {
    /// A new scan configuration.
    ///
    /// Defaults: the default origin filter, the default link mode, flavor `GnuC11` and
    /// compiler `gcc` (`clang` for `ClangC11`) when none is set. Builders append in
    /// declaration order; `no_origin_filter` disables filtering.
    pub fn new() -> (r: Self)
        ensures
            is_new_config(r),
    {
        HeaderConfig {
            entry_headers: Vec::new(),
            include_dirs: Vec::new(),
            framework_dirs: Vec::new(),
            library_dirs: Vec::new(),
            defines: Vec::new(),
            link_libraries: Vec::new(),
            link_frameworks: Vec::new(),
            link_artifacts: Vec::new(),
            ordered_link_inputs: Vec::new(),
            preferred_link_mode: LinkResolutionMode::Default,
            platform_constraints: Vec::new(),
            probe_types: Vec::new(),
            compiler: None,
            flavor: None,
            origin_filter: Some(OriginFilter::default()),
        }
    }

    pub fn header(self, path: &str) -> (r: Self)
        ensures
            r == (HeaderConfig { entry_headers: r.entry_headers, ..self }),
            appended(self.entry_headers@, r.entry_headers@, path@),
    {
        let mut c = self;
        push_str(&mut c.entry_headers, path);
        c
    }

    pub fn entry_header(self, path: &str) -> (r: Self)
        ensures
            r == (HeaderConfig { entry_headers: r.entry_headers, ..self }),
            appended(self.entry_headers@, r.entry_headers@, path@),
    {
        self.header(path)
    }

    pub fn headers(self, paths: &[&str]) -> (r: Self)
        ensures
            r == (HeaderConfig { entry_headers: r.entry_headers, ..self }),
            extended(self.entry_headers@, r.entry_headers@, strs_ref(paths@)),
    {
        let mut c = self;
        append_all(&mut c.entry_headers, paths);
        c
    }

    pub fn include_dir(self, path: &str) -> (r: Self)
        ensures
            r == (HeaderConfig { include_dirs: r.include_dirs, ..self }),
            appended(self.include_dirs@, r.include_dirs@, path@),
    {
        let mut c = self;
        push_str(&mut c.include_dirs, path);
        c
    }

    pub fn add_include_dir(self, path: &str) -> (r: Self)
        ensures
            r == (HeaderConfig { include_dirs: r.include_dirs, ..self }),
            appended(self.include_dirs@, r.include_dirs@, path@),
    {
        self.include_dir(path)
    }

    pub fn include_dirs(self, paths: &[&str]) -> (r: Self)
        ensures
            r == (HeaderConfig { include_dirs: r.include_dirs, ..self }),
            extended(self.include_dirs@, r.include_dirs@, strs_ref(paths@)),
    {
        let mut c = self;
        append_all(&mut c.include_dirs, paths);
        c
    }

    pub fn framework_dir(self, path: &str) -> (r: Self)
        ensures
            r == (HeaderConfig { framework_dirs: r.framework_dirs, ..self }),
            appended(self.framework_dirs@, r.framework_dirs@, path@),
    {
        let mut c = self;
        push_str(&mut c.framework_dirs, path);
        c
    }

    pub fn add_framework_dir(self, path: &str) -> (r: Self)
        ensures
            r == (HeaderConfig { framework_dirs: r.framework_dirs, ..self }),
            appended(self.framework_dirs@, r.framework_dirs@, path@),
    {
        self.framework_dir(path)
    }

    pub fn framework_dirs(self, paths: &[&str]) -> (r: Self)
        ensures
            r == (HeaderConfig { framework_dirs: r.framework_dirs, ..self }),
            extended(self.framework_dirs@, r.framework_dirs@, strs_ref(paths@)),
    {
        let mut c = self;
        append_all(&mut c.framework_dirs, paths);
        c
    }

    pub fn library_dir(self, path: &str) -> (r: Self)
        ensures
            r == (HeaderConfig { library_dirs: r.library_dirs, ..self }),
            appended(self.library_dirs@, r.library_dirs@, path@),
    {
        let mut c = self;
        push_str(&mut c.library_dirs, path);
        c
    }

    pub fn add_library_dir(self, path: &str) -> (r: Self)
        ensures
            r == (HeaderConfig { library_dirs: r.library_dirs, ..self }),
            appended(self.library_dirs@, r.library_dirs@, path@),
    {
        self.library_dir(path)
    }

    pub fn library_dirs(self, paths: &[&str]) -> (r: Self)
        ensures
            r == (HeaderConfig { library_dirs: r.library_dirs, ..self }),
            extended(self.library_dirs@, r.library_dirs@, strs_ref(paths@)),
    {
        let mut c = self;
        append_all(&mut c.library_dirs, paths);
        c
    }

    pub fn define(self, name: &str, value: Option<String>) -> (r: Self)
        ensures
            r == (HeaderConfig { defines: r.defines, ..self }),
            r.defines@.len() == self.defines@.len() + 1,
            r.defines@.drop_last() == self.defines@,
            r.defines@.last().0@ == name@,
            r.defines@.last().1 == value,
    {
        let mut c = self;
        c.defines.push((name.to_owned(), value));
        c
    }

    pub fn define_value(self, name: &str, value: &str) -> (r: Self)
        ensures
            r == (HeaderConfig { defines: r.defines, ..self }),
            r.defines@.len() == self.defines@.len() + 1,
            r.defines@.drop_last() == self.defines@,
            r.defines@.last().0@ == name@,
            r.defines@.last().1 matches Some(v) && v@ == value@,
    {
        self.define(name, Some(value.to_owned()))
    }

    pub fn define_flag(self, name: &str) -> (r: Self)
        ensures
            r == (HeaderConfig { defines: r.defines, ..self }),
            r.defines@.len() == self.defines@.len() + 1,
            r.defines@.drop_last() == self.defines@,
            r.defines@.last().0@ == name@,
            r.defines@.last().1.is_none(),
    {
        self.define(name, None)
    }

    pub fn defines(self, defines: &[(&str, Option<String>)]) -> (r: Self)
        ensures
            r == (HeaderConfig { defines: r.defines, ..self }),
            r.defines@.len() == self.defines@.len() + defines@.len(),
            r.defines@.subrange(0, self.defines@.len() as int) == self.defines@,
            forall|i: int|
                0 <= i < defines@.len() ==> (#[trigger] r.defines@[self.defines@.len() + i]).0@
                    == defines@[i].0@ && r.defines@[self.defines@.len() + i].1 == defines@[i].1,
    {
        let mut c = self;
        append_defines(&mut c.defines, defines);
        c
    }

    pub fn link_lib(self, name: &str) -> (r: Self)
        ensures
            r == (HeaderConfig {
                link_libraries: r.link_libraries,
                ordered_link_inputs: r.ordered_link_inputs,
                ..self
            }),
            r.link_libraries@.drop_last() == self.link_libraries@,
            r.link_libraries@.len() == self.link_libraries@.len() + 1,
            is_library(r.link_libraries@.last(), name@, LinkLibraryKind::Default),
            r.ordered_link_inputs@.drop_last() == self.ordered_link_inputs@,
            r.ordered_link_inputs@.len() == self.ordered_link_inputs@.len() + 1,
            r.ordered_link_inputs@.last() matches LinkInput::Library(l) && is_library(
                l,
                name@,
                LinkLibraryKind::Default,
            ),
    {
        self.with_library(name, LinkLibraryKind::Default)
    }

    pub fn link_library(self, name: &str) -> (r: Self)
        ensures
            r == (HeaderConfig {
                link_libraries: r.link_libraries,
                ordered_link_inputs: r.ordered_link_inputs,
                ..self
            }),
            r.link_libraries@.drop_last() == self.link_libraries@,
            r.link_libraries@.len() == self.link_libraries@.len() + 1,
            is_library(r.link_libraries@.last(), name@, LinkLibraryKind::Default),
            r.ordered_link_inputs@.drop_last() == self.ordered_link_inputs@,
            r.ordered_link_inputs@.len() == self.ordered_link_inputs@.len() + 1,
            r.ordered_link_inputs@.last() matches LinkInput::Library(l) && is_library(
                l,
                name@,
                LinkLibraryKind::Default,
            ),
    {
        self.link_lib(name)
    }

    pub fn link_static_lib(self, name: &str) -> (r: Self)
        ensures
            r == (HeaderConfig {
                link_libraries: r.link_libraries,
                ordered_link_inputs: r.ordered_link_inputs,
                ..self
            }),
            r.link_libraries@.drop_last() == self.link_libraries@,
            r.link_libraries@.len() == self.link_libraries@.len() + 1,
            is_library(r.link_libraries@.last(), name@, LinkLibraryKind::Static),
            r.ordered_link_inputs@.drop_last() == self.ordered_link_inputs@,
            r.ordered_link_inputs@.len() == self.ordered_link_inputs@.len() + 1,
            r.ordered_link_inputs@.last() matches LinkInput::Library(l) && is_library(
                l,
                name@,
                LinkLibraryKind::Static,
            ),
    {
        self.with_library(name, LinkLibraryKind::Static)
    }

    pub fn link_shared_lib(self, name: &str) -> (r: Self)
        ensures
            r == (HeaderConfig {
                link_libraries: r.link_libraries,
                ordered_link_inputs: r.ordered_link_inputs,
                ..self
            }),
            r.link_libraries@.drop_last() == self.link_libraries@,
            r.link_libraries@.len() == self.link_libraries@.len() + 1,
            is_library(r.link_libraries@.last(), name@, LinkLibraryKind::Dynamic),
            r.ordered_link_inputs@.drop_last() == self.ordered_link_inputs@,
            r.ordered_link_inputs@.len() == self.ordered_link_inputs@.len() + 1,
            r.ordered_link_inputs@.last() matches LinkInput::Library(l) && is_library(
                l,
                name@,
                LinkLibraryKind::Dynamic,
            ),
    {
        self.with_library(name, LinkLibraryKind::Dynamic)
    }

    fn with_library(self, name: &str, kind: LinkLibraryKind) -> (r: Self)
        ensures
            r == (HeaderConfig {
                link_libraries: r.link_libraries,
                ordered_link_inputs: r.ordered_link_inputs,
                ..self
            }),
            r.link_libraries@.drop_last() == self.link_libraries@,
            r.link_libraries@.len() == self.link_libraries@.len() + 1,
            is_library(r.link_libraries@.last(), name@, kind),
            r.ordered_link_inputs@.drop_last() == self.ordered_link_inputs@,
            r.ordered_link_inputs@.len() == self.ordered_link_inputs@.len() + 1,
            r.ordered_link_inputs@.last() matches LinkInput::Library(l) && is_library(l, name@, kind),
    {
        let mut c = self;
        let library = LinkLibrary { name: name.to_owned(), kind, source: LinkRequirementSource::Declared };
        let copy = LinkLibrary { name: name.to_owned(), kind, source: LinkRequirementSource::Declared };
        c.ordered_link_inputs.push(LinkInput::Library(copy));
        c.link_libraries.push(library);
        c
    }

    fn with_artifact(self, path: &str, kind: LinkArtifactKind) -> (r: Self)
        ensures
            r == (HeaderConfig {
                link_artifacts: r.link_artifacts,
                ordered_link_inputs: r.ordered_link_inputs,
                ..self
            }),
            r.link_artifacts@.drop_last() == self.link_artifacts@,
            r.link_artifacts@.len() == self.link_artifacts@.len() + 1,
            is_artifact(r.link_artifacts@.last(), path@, kind),
            r.ordered_link_inputs@.drop_last() == self.ordered_link_inputs@,
            r.ordered_link_inputs@.len() == self.ordered_link_inputs@.len() + 1,
            r.ordered_link_inputs@.last() matches LinkInput::Artifact(a) && is_artifact(a, path@, kind),
    {
        let mut c = self;
        let artifact = LinkArtifact { path: path.to_owned(), kind, source: LinkRequirementSource::Declared };
        let copy = LinkArtifact { path: path.to_owned(), kind, source: LinkRequirementSource::Declared };
        c.ordered_link_inputs.push(LinkInput::Artifact(copy));
        c.link_artifacts.push(artifact);
        c
    }

    pub fn link_object_file(self, path: &str) -> (r: Self)
        ensures
            r == (HeaderConfig {
                link_artifacts: r.link_artifacts,
                ordered_link_inputs: r.ordered_link_inputs,
                ..self
            }),
            r.link_artifacts@.drop_last() == self.link_artifacts@,
            r.link_artifacts@.len() == self.link_artifacts@.len() + 1,
            is_artifact(r.link_artifacts@.last(), path@, LinkArtifactKind::Object),
            r.ordered_link_inputs@.drop_last() == self.ordered_link_inputs@,
            r.ordered_link_inputs@.len() == self.ordered_link_inputs@.len() + 1,
            r.ordered_link_inputs@.last() matches LinkInput::Artifact(a) && is_artifact(
                a,
                path@,
                LinkArtifactKind::Object,
            ),
    {
        self.with_artifact(path, LinkArtifactKind::Object)
    }

    pub fn link_static_artifact(self, path: &str) -> (r: Self)
        ensures
            r == (HeaderConfig {
                link_artifacts: r.link_artifacts,
                ordered_link_inputs: r.ordered_link_inputs,
                ..self
            }),
            r.link_artifacts@.drop_last() == self.link_artifacts@,
            r.link_artifacts@.len() == self.link_artifacts@.len() + 1,
            is_artifact(r.link_artifacts@.last(), path@, LinkArtifactKind::StaticLibrary),
            r.ordered_link_inputs@.drop_last() == self.ordered_link_inputs@,
            r.ordered_link_inputs@.len() == self.ordered_link_inputs@.len() + 1,
            r.ordered_link_inputs@.last() matches LinkInput::Artifact(a) && is_artifact(
                a,
                path@,
                LinkArtifactKind::StaticLibrary,
            ),
    {
        self.with_artifact(path, LinkArtifactKind::StaticLibrary)
    }

    pub fn link_shared_artifact(self, path: &str) -> (r: Self)
        ensures
            r == (HeaderConfig {
                link_artifacts: r.link_artifacts,
                ordered_link_inputs: r.ordered_link_inputs,
                ..self
            }),
            r.link_artifacts@.drop_last() == self.link_artifacts@,
            r.link_artifacts@.len() == self.link_artifacts@.len() + 1,
            is_artifact(r.link_artifacts@.last(), path@, LinkArtifactKind::SharedLibrary),
            r.ordered_link_inputs@.drop_last() == self.ordered_link_inputs@,
            r.ordered_link_inputs@.len() == self.ordered_link_inputs@.len() + 1,
            r.ordered_link_inputs@.last() matches LinkInput::Artifact(a) && is_artifact(
                a,
                path@,
                LinkArtifactKind::SharedLibrary,
            ),
    {
        self.with_artifact(path, LinkArtifactKind::SharedLibrary)
    }

    pub fn link_framework(self, name: &str) -> (r: Self)
        ensures
            r == (HeaderConfig {
                link_frameworks: r.link_frameworks,
                ordered_link_inputs: r.ordered_link_inputs,
                ..self
            }),
            r.link_frameworks@.drop_last() == self.link_frameworks@,
            r.link_frameworks@.len() == self.link_frameworks@.len() + 1,
            r.link_frameworks@.last().name@ == name@,
            r.link_frameworks@.last().source == LinkRequirementSource::Declared,
            r.ordered_link_inputs@.drop_last() == self.ordered_link_inputs@,
            r.ordered_link_inputs@.len() == self.ordered_link_inputs@.len() + 1,
            r.ordered_link_inputs@.last() matches LinkInput::Framework(f) && f.name@ == name@
                && f.source == LinkRequirementSource::Declared,
    {
        let mut c = self;
        let framework = LinkFramework { name: name.to_owned(), source: LinkRequirementSource::Declared };
        let copy = LinkFramework { name: name.to_owned(), source: LinkRequirementSource::Declared };
        c.ordered_link_inputs.push(LinkInput::Framework(copy));
        c.link_frameworks.push(framework);
        c
    }

    pub fn prefer_static_linking(self) -> (r: Self)
        ensures
            r == (HeaderConfig { preferred_link_mode: LinkResolutionMode::PreferStatic, ..self }),
    {
        let mut c = self;
        c.preferred_link_mode = LinkResolutionMode::PreferStatic;
        c
    }

    pub fn prefer_dynamic_linking(self) -> (r: Self)
        ensures
            r == (HeaderConfig { preferred_link_mode: LinkResolutionMode::PreferDynamic, ..self }),
    {
        let mut c = self;
        c.preferred_link_mode = LinkResolutionMode::PreferDynamic;
        c
    }

    pub fn target_constraint(self, constraint: &str) -> (r: Self)
        ensures
            r == (HeaderConfig { platform_constraints: r.platform_constraints, ..self }),
            appended(self.platform_constraints@, r.platform_constraints@, constraint@),
    {
        let mut c = self;
        push_str(&mut c.platform_constraints, constraint);
        c
    }

    pub fn target_constraints(self, constraints: &[&str]) -> (r: Self)
        ensures
            r == (HeaderConfig { platform_constraints: r.platform_constraints, ..self }),
            extended(self.platform_constraints@, r.platform_constraints@, strs_ref(constraints@)),
    {
        let mut c = self;
        append_all(&mut c.platform_constraints, constraints);
        c
    }

    pub fn probe_type_layout(self, name: &str) -> (r: Self)
        ensures
            r == (HeaderConfig { probe_types: r.probe_types, ..self }),
            appended(self.probe_types@, r.probe_types@, name@),
    {
        let mut c = self;
        push_str(&mut c.probe_types, name);
        c
    }

    pub fn request_probe_type_layout(self, name: &str) -> (r: Self)
        ensures
            r == (HeaderConfig { probe_types: r.probe_types, ..self }),
            appended(self.probe_types@, r.probe_types@, name@),
    {
        self.probe_type_layout(name)
    }

    pub fn probe_type_layouts(self, names: &[&str]) -> (r: Self)
        ensures
            r == (HeaderConfig { probe_types: r.probe_types, ..self }),
            extended(self.probe_types@, r.probe_types@, strs_ref(names@)),
    {
        let mut c = self;
        append_all(&mut c.probe_types, names);
        c
    }

    pub fn compiler(self, cmd: &str) -> (r: Self)
        ensures
            r == (HeaderConfig { compiler: r.compiler, ..self }),
            r.compiler matches Some(c) && c@ == cmd@,
    {
        let mut c = self;
        c.compiler = Some(cmd.to_owned());
        c
    }

    pub fn flavor(self, flavor: Flavor) -> (r: Self)
        ensures
            r == (HeaderConfig { flavor: Some(flavor), ..self }),
    {
        let mut c = self;
        c.flavor = Some(flavor);
        c
    }

    pub fn origin_filter(self, filter: OriginFilter) -> (r: Self)
        ensures
            r == (HeaderConfig { origin_filter: Some(filter), ..self }),
    {
        let mut c = self;
        c.origin_filter = Some(filter);
        c
    }

    pub fn no_origin_filter(self) -> (r: Self)
        ensures
            r == (HeaderConfig { origin_filter: None, ..self }),
    {
        let mut c = self;
        c.origin_filter = None;
        c
    }

    pub fn preprocessing(&self) -> (r: PreprocessingConfigRef<'_>)
        ensures
            r.include_dirs@ == self.include_dirs@,
            r.defines@ == self.defines@,
            match self.compiler {
                Some(c) => r.compiler matches Some(x) && x@ == c@,
                None => r.compiler.is_none(),
            },
            r.flavor == self.flavor,
    {
        PreprocessingConfigRef {
            include_dirs: self.include_dirs.as_slice(),
            defines: self.defines.as_slice(),
            compiler: match &self.compiler {
                Some(c) => Some(c.as_str()),
                None => None,
            },
            flavor: self.flavor,
        }
    }

    pub fn binding_surface(&self) -> (r: BindingSurfaceConfigRef<'_>)
        ensures
            r.entry_headers@ == self.entry_headers@,
    {
        BindingSurfaceConfigRef { entry_headers: self.entry_headers.as_slice() }
    }

    pub fn linking(&self) -> (r: LinkConfigRef<'_>)
        ensures
            r.framework_dirs@ == self.framework_dirs@,
            r.library_dirs@ == self.library_dirs@,
            r.link_libraries@ == self.link_libraries@,
            r.link_frameworks@ == self.link_frameworks@,
            r.link_artifacts@ == self.link_artifacts@,
            r.ordered_link_inputs@ == self.ordered_link_inputs@,
            r.preferred_link_mode == self.preferred_link_mode,
            r.platform_constraints@ == self.platform_constraints@,
    {
        LinkConfigRef {
            framework_dirs: self.framework_dirs.as_slice(),
            library_dirs: self.library_dirs.as_slice(),
            link_libraries: self.link_libraries.as_slice(),
            link_frameworks: self.link_frameworks.as_slice(),
            link_artifacts: self.link_artifacts.as_slice(),
            ordered_link_inputs: self.ordered_link_inputs.as_slice(),
            preferred_link_mode: self.preferred_link_mode,
            platform_constraints: self.platform_constraints.as_slice(),
        }
    }

    pub fn probing(&self) -> (r: ProbeConfigRef<'_>)
        ensures
            r.probe_types@ == self.probe_types@,
    {
        ProbeConfigRef { probe_types: self.probe_types.as_slice() }
    }

    pub fn filtering(&self) -> (r: Option<&OriginFilter>)
        ensures
            match self.origin_filter {
                Some(f) => r matches Some(x) && *x == f,
                None => r.is_none(),
            },
    {
        match &self.origin_filter {
            Some(f) => Some(f),
            None => None,
        }
    }
}

// ---------------------------------------------------------------------------
// Validation and package metadata
// ---------------------------------------------------------------------------

/// Some string of `v` is empty.
pub open spec fn any_empty(v: Seq<String>) -> bool {
    exists|i: int| 0 <= i < v.len() && (#[trigger] v[i])@.len() == 0
}

/// The first configuration value that must not be empty and is, as the reason of an
/// `InvalidConfig` error; none when every value is set.
pub open spec fn invalid_reason(c: HeaderConfig) -> Option<Seq<char>> {
    if any_empty(c.entry_headers@) {
        Some("entry header path must not be empty"@)
    } else if any_empty(c.include_dirs@) {
        Some("include directory path must not be empty"@)
    } else if any_empty(c.framework_dirs@) {
        Some("framework directory path must not be empty"@)
    } else if any_empty(c.library_dirs@) {
        Some("library directory path must not be empty"@)
    } else if c.compiler matches Some(x) && x@.len() == 0 {
        Some("compiler command must not be empty"@)
    } else if exists|i: int| 0 <= i < c.defines@.len() && (#[trigger] c.defines@[i]).0@.len() == 0 {
        Some("define name must not be empty"@)
    } else if any_empty(c.probe_types@) {
        Some("probe type name must not be empty"@)
    } else if any_empty(c.platform_constraints@) {
        Some("target constraint must not be empty"@)
    } else if exists|i: int| 0 <= i < c.link_libraries@.len() && (#[trigger] c.link_libraries@[i]).name@.len() == 0 {
        Some("link library name must not be empty"@)
    } else if exists|i: int| 0 <= i < c.link_frameworks@.len() && (#[trigger] c.link_frameworks@[i]).name@.len() == 0 {
        Some("link framework name must not be empty"@)
    } else if exists|i: int| 0 <= i < c.link_artifacts@.len() && (#[trigger] c.link_artifacts@[i]).path@.len() == 0 {
        Some("link artifact path must not be empty"@)
    } else {
        None
    }
}

/// The compiler a configuration uses: the explicit one, else `clang` for the clang
/// flavor and `gcc` otherwise.
pub open spec fn spec_compiler(c: HeaderConfig) -> Seq<char> {
    match c.compiler {
        Some(x) => x@,
        None => if c.flavor == Some(Flavor::ClangC11) {
            "clang"@
        } else {
            "gcc"@
        },
    }
}

/// Label of the effective flavor (`GnuC11` when none is set).
pub open spec fn spec_flavor_label(f: Option<Flavor>) -> Seq<char> {
    match f {
        Some(Flavor::ClangC11) => "clang-c11"@,
        Some(Flavor::StdC11) => "std-c11"@,
        _ => "gnu-c11"@,
    }
}

/// Native surface kind by which requirement kinds are declared.
pub open spec fn surface_kind(names: bool, artifacts: bool) -> NativeSurfaceKind {
    if !names && !artifacts {
        NativeSurfaceKind::HeaderOnly
    } else if names && !artifacts {
        NativeSurfaceKind::LibraryNames
    } else if !names && artifacts {
        NativeSurfaceKind::ConcreteArtifacts
    } else {
        NativeSurfaceKind::Mixed
    }
}

/// The warning a failed probe leaves: kind by the failure, `"probe failed: "` and the
/// failure's message (an I/O failure's own text is not stated).
pub open spec fn probe_warning(d: Diagnostic, e: LincError) -> bool {
    &&& d.kind == (if e matches LincError::ProbeCompile { stderr, .. } && probe_unavailable_text(stderr@) {
        DiagnosticKind::ProbeUnavailable
    } else {
        DiagnosticKind::ProbeFailed
    })
    &&& d.severity == Severity::Warning
    &&& !(e is Io) ==> d.message@ == "probe failed: "@ + error_text(e)
    &&& e is Io ==> d.message@.len() >= ("probe failed: "@ + error_text(e)).len() && d.message@.subrange(0, ("probe failed: "@ + error_text(e)).len() as int) == "probe failed: "@ + error_text(e)
    &&& d.location is None && d.item_name is None && d.artifact_path is None
}

/// The link surface that `binding_link_surface` records for `c`.
pub open spec fn link_surface_of(c: HeaderConfig, l: BindingLinkSurface) -> bool {
    &&& l.preferred_mode == c.preferred_link_mode
    &&& l.native_surface_kind == surface_kind(
        c.link_libraries@.len() > 0 || c.link_frameworks@.len() > 0,
        c.link_artifacts@.len() > 0,
    )
    &&& l.platform_constraints@ == c.platform_constraints@
    &&& l.include_paths@ == c.include_dirs@
    &&& l.framework_paths@ == c.framework_dirs@
    &&& l.library_paths@ == c.library_dirs@
    &&& l.libraries@ == c.link_libraries@
    &&& l.frameworks@ == c.link_frameworks@
    &&& l.artifacts@ == c.link_artifacts@
    &&& l.ordered_inputs@ == c.ordered_link_inputs@
}

/// The metadata a scan records: schema and library version, the joined entry headers
/// as source, the target identity, the inputs, the captured macros with their
/// provenance and environment, and the link surface.
pub open spec fn scan_metadata(
    r: BindingPackage,
    c: HeaderConfig,
    macros: Seq<MacroBinding>,
    prov: Seq<MacroProvenance>,
    target_triple: Option<String>,
    compiler_version: Option<String>,
) -> bool {
    &&& r.schema_version == SCHEMA_VERSION
    &&& r.linc_version@ == LINC_VERSION@
    &&& r.source_path matches Some(p) && p@ == joined_headers(strs(c.entry_headers@))
    &&& r.target.target_triple == target_triple
    &&& r.target.compiler_version == compiler_version
    &&& r.target.compiler_command matches Some(cc) && cc@ == spec_compiler(c)
    &&& r.target.flavor matches Some(f) && f@ == spec_flavor_label(c.flavor)
    &&& r.inputs.entry_headers@ == c.entry_headers@
    &&& r.inputs.include_dirs@ == c.include_dirs@
    &&& r.inputs.defines@.len() == c.defines@.len()
    &&& forall|i: int| 0 <= i < c.defines@.len() ==> (#[trigger] r.inputs.defines@[i]).name == c.defines@[i].0
        && r.inputs.defines@[i].value == c.defines@[i].1
    &&& r.macros@ == macros
    &&& r.macro_provenance@ == prov
    &&& r.effective_macro_environment@ == environment_of(macros, prov)
    &&& link_surface_of(c, r.link)
}

/// The preprocessor flag of one define: `-DNAME=VALUE`, or `-DNAME` without a value.
pub open spec fn define_flag_s(d: (String, Option<String>)) -> Seq<char> {
    match d.1 {
        Some(v) => "-D"@ + d.0@ + "="@ + v@,
        None => "-D"@ + d.0@,
    }
}

/// `-IDIR` for each include directory, then the flag of each define, in order.
pub open spec fn search_define_flags(dirs: Seq<String>, defines: Seq<(String, Option<String>)>) -> Seq<Seq<char>> {
    dirs.map_values(|d: String| "-I"@ + d@) + defines.map_values(|d: (String, Option<String>)| define_flag_s(d))
}

/// The entry headers joined by `", "`.
pub open spec fn joined_headers(headers: Seq<Seq<char>>) -> Seq<char>
    decreases headers.len(),
{
    if headers.len() == 0 {
        seq![]
    } else if headers.len() == 1 {
        headers[0]
    } else {
        joined_headers(headers.drop_last()) + ", "@ + headers.last()
    }
}

/// `#include "h"` lines for each entry header, in order.
pub open spec fn combined_source(headers: Seq<Seq<char>>) -> Seq<char>
    decreases headers.len(),
{
    if headers.len() == 0 {
        seq![]
    } else {
        combined_source(headers.drop_last()) + "#include \""@ + headers.last() + "\"\n"@
    }
}

/// Whether some string of `v` is empty.
fn has_empty(v: &Vec<String>) -> (r: bool)
    ensures
        r == any_empty(v@),
{
    let mut i: usize = 0;
    while i < v.len()
        invariant
            i <= v@.len(),
            forall|k: int| 0 <= k < i ==> (#[trigger] v@[k])@.len() != 0,
        decreases v@.len() - i,
    {
        if v[i].unicode_len() == 0 {
            return true;
        }
        i = i + 1;
    }
    false
}

fn invalid(reason: &str) -> (r: LincError)
    ensures
        r matches LincError::InvalidConfig { reason: x } && x@ == reason@,
{
    LincError::InvalidConfig { reason: reason.to_owned() }
}

impl HeaderConfig {
    /// Checks the configuration: entry headers are required, and no path, name or
    /// command may be empty.
    #[verifier::loop_isolation(false)]
    pub fn validate(&self) -> (r: Result<(), LincError>)
        ensures
            self.entry_headers@.len() == 0 ==> r matches Err(LincError::NoHeaders),
            self.entry_headers@.len() > 0 ==> match invalid_reason(*self) {
                Some(m) => r matches Err(LincError::InvalidConfig { reason }) && reason@ == m,
                None => r is Ok,
            },
    {
        if self.entry_headers.len() == 0 {
            return Err(LincError::NoHeaders);
        }
        if has_empty(&self.entry_headers) {
            return Err(invalid("entry header path must not be empty"));
        }
        if has_empty(&self.include_dirs) {
            return Err(invalid("include directory path must not be empty"));
        }
        if has_empty(&self.framework_dirs) {
            return Err(invalid("framework directory path must not be empty"));
        }
        if has_empty(&self.library_dirs) {
            return Err(invalid("library directory path must not be empty"));
        }
        match &self.compiler {
            Some(c) => {
                if c.unicode_len() == 0 {
                    return Err(invalid("compiler command must not be empty"));
                }
            },
            None => {},
        }
        let mut i: usize = 0;
        while i < self.defines.len()
            invariant
                i <= self.defines@.len(),
                forall|k: int| 0 <= k < i ==> (#[trigger] self.defines@[k]).0@.len() != 0,
            decreases self.defines@.len() - i,
        {
            if self.defines[i].0.unicode_len() == 0 {
                return Err(invalid("define name must not be empty"));
            }
            i = i + 1;
        }
        if has_empty(&self.probe_types) {
            return Err(invalid("probe type name must not be empty"));
        }
        if has_empty(&self.platform_constraints) {
            return Err(invalid("target constraint must not be empty"));
        }
        let mut i: usize = 0;
        while i < self.link_libraries.len()
            invariant
                i <= self.link_libraries@.len(),
                forall|k: int| 0 <= k < i ==> (#[trigger] self.link_libraries@[k]).name@.len() != 0,
            decreases self.link_libraries@.len() - i,
        {
            if self.link_libraries[i].name.unicode_len() == 0 {
                return Err(invalid("link library name must not be empty"));
            }
            i = i + 1;
        }
        let mut i: usize = 0;
        while i < self.link_frameworks.len()
            invariant
                i <= self.link_frameworks@.len(),
                forall|k: int| 0 <= k < i ==> (#[trigger] self.link_frameworks@[k]).name@.len() != 0,
            decreases self.link_frameworks@.len() - i,
        {
            if self.link_frameworks[i].name.unicode_len() == 0 {
                return Err(invalid("link framework name must not be empty"));
            }
            i = i + 1;
        }
        let mut i: usize = 0;
        while i < self.link_artifacts.len()
            invariant
                i <= self.link_artifacts@.len(),
                forall|k: int| 0 <= k < i ==> (#[trigger] self.link_artifacts@[k]).path@.len() != 0,
            decreases self.link_artifacts@.len() - i,
        {
            if self.link_artifacts[i].path.unicode_len() == 0 {
                return Err(invalid("link artifact path must not be empty"));
            }
            i = i + 1;
        }
        Ok(())
    }

    /// The compiler command: the explicit one, else `clang` for the clang flavor and
    /// `gcc` otherwise.
    pub fn compiler_command(&self) -> (r: String)
        ensures
            r@ == spec_compiler(*self),
    {
        match &self.compiler {
            Some(c) => c.clone(),
            None => match self.flavor {
                Some(Flavor::ClangC11) => "clang".to_owned(),
                _ => "gcc".to_owned(),
            },
        }
    }

    /// Label of the effective flavor.
    pub fn flavor_label(&self) -> (r: String)
        ensures
            r@ == spec_flavor_label(self.flavor),
    {
        match self.flavor {
            Some(Flavor::ClangC11) => "clang-c11".to_owned(),
            Some(Flavor::StdC11) => "std-c11".to_owned(),
            _ => "gnu-c11".to_owned(),
        }
    }

    /// Target identity of a scan: the target triple and compiler version that running
    /// the compiler reported (`-dumpmachine`, `--version`), the compiler command and
    /// the flavor label.
    pub fn binding_target(&self, target_triple: Option<String>, compiler_version: Option<String>) -> (r: BindingTarget)
        ensures
            r.target_triple == target_triple,
            r.compiler_version == compiler_version,
            r.compiler_command matches Some(c) && c@ == spec_compiler(*self),
            r.flavor matches Some(f) && f@ == spec_flavor_label(self.flavor),
    {
        BindingTarget {
            target_triple,
            compiler_command: Some(self.compiler_command()),
            compiler_version,
            flavor: Some(self.flavor_label()),
        }
    }

    /// The inputs recorded in a package: entry headers, include directories, defines.
    pub fn binding_inputs(&self) -> (r: BindingInputs)
        ensures
            r.entry_headers@ == self.entry_headers@,
            r.include_dirs@ == self.include_dirs@,
            r.defines@.len() == self.defines@.len(),
            forall|i: int|
                0 <= i < self.defines@.len() ==> (#[trigger] r.defines@[i]).name == self.defines@[i].0
                    && r.defines@[i].value == self.defines@[i].1,
    {
        let mut defines: Vec<BindingDefine> = Vec::new();
        let mut i: usize = 0;
        while i < self.defines.len()
            invariant
                i <= self.defines@.len(),
                defines@.len() == i,
                forall|k: int|
                    0 <= k < i ==> (#[trigger] defines@[k]).name == self.defines@[k].0
                        && defines@[k].value == self.defines@[k].1,
            decreases self.defines@.len() - i,
        {
            let (name, value) = &self.defines[i];
            defines.push(BindingDefine { name: name.clone(), value: clone_opt(value) });
            i = i + 1;
        }
        BindingInputs {
            entry_headers: clone_strings(&self.entry_headers),
            include_dirs: clone_strings(&self.include_dirs),
            defines,
        }
    }

    /// Native surface kind: header-only, library names, concrete artifacts, or mixed.
    pub fn native_surface_kind(&self) -> (r: NativeSurfaceKind)
        ensures
            r == surface_kind(
                self.link_libraries@.len() > 0 || self.link_frameworks@.len() > 0,
                self.link_artifacts@.len() > 0,
            ),
    {
        let names = self.link_libraries.len() > 0 || self.link_frameworks.len() > 0;
        let artifacts = self.link_artifacts.len() > 0;
        if !names && !artifacts {
            NativeSurfaceKind::HeaderOnly
        } else if names && !artifacts {
            NativeSurfaceKind::LibraryNames
        } else if !names && artifacts {
            NativeSurfaceKind::ConcreteArtifacts
        } else {
            NativeSurfaceKind::Mixed
        }
    }

    /// The link surface recorded in a package: declared requirements in their order,
    /// search paths and the link mode and constraints.
    pub fn binding_link_surface(&self) -> (r: BindingLinkSurface)
        ensures
            r.preferred_mode == self.preferred_link_mode,
            r.native_surface_kind == surface_kind(
                self.link_libraries@.len() > 0 || self.link_frameworks@.len() > 0,
                self.link_artifacts@.len() > 0,
            ),
            r.platform_constraints@ == self.platform_constraints@,
            r.include_paths@ == self.include_dirs@,
            r.framework_paths@ == self.framework_dirs@,
            r.library_paths@ == self.library_dirs@,
            r.libraries@ == self.link_libraries@,
            r.frameworks@ == self.link_frameworks@,
            r.artifacts@ == self.link_artifacts@,
            r.ordered_inputs@ == self.ordered_link_inputs@,
    {
        BindingLinkSurface {
            preferred_mode: self.preferred_link_mode,
            native_surface_kind: self.native_surface_kind(),
            platform_constraints: clone_strings(&self.platform_constraints),
            include_paths: clone_strings(&self.include_dirs),
            framework_paths: clone_strings(&self.framework_dirs),
            library_paths: clone_strings(&self.library_dirs),
            libraries: copy_libraries(&self.link_libraries),
            frameworks: copy_frameworks(&self.link_frameworks),
            artifacts: copy_artifacts(&self.link_artifacts),
            ordered_inputs: copy_inputs(&self.ordered_link_inputs),
        }
    }

    /// Flags for the include directories and defines, in order: `-IDIR` for each
    /// directory, then `-DNAME=VALUE` (or `-DNAME`) for each define.
    pub fn search_and_define_flags(&self) -> (r: Vec<String>)
        ensures
            strs(r@) == search_define_flags(self.include_dirs@, self.defines@),
    {
        let mut r: Vec<String> = Vec::new();
        let ghost dirs = self.include_dirs@.map_values(|d: String| "-I"@ + d@);
        let ghost defs = self.defines@.map_values(|d: (String, Option<String>)| define_flag_s(d));
        let mut i: usize = 0;
        assert(strs(r@) =~= dirs.subrange(0, 0));
        while i < self.include_dirs.len()
            invariant
                i <= self.include_dirs@.len(),
                dirs == self.include_dirs@.map_values(|d: String| "-I"@ + d@),
                strs(r@) == dirs.subrange(0, i as int),
            decreases self.include_dirs@.len() - i,
        {
            let ghost before = r@;
            r.push(join2("-I", self.include_dirs[i].as_str()));
            proof {
                reveal_strlit("-I");
                assert(strs(r@) =~= strs(before).push(dirs[i as int]));
                assert(dirs.subrange(0, i + 1) =~= dirs.subrange(0, i as int).push(dirs[i as int]));
            }
            i = i + 1;
        }
        assert(dirs.subrange(0, i as int) =~= dirs);
        let mut j: usize = 0;
        assert(dirs + defs.subrange(0, 0) =~= dirs);
        while j < self.defines.len()
            invariant
                j <= self.defines@.len(),
                dirs.len() == self.include_dirs@.len(),
                defs == self.defines@.map_values(|d: (String, Option<String>)| define_flag_s(d)),
                strs(r@) == dirs + defs.subrange(0, j as int),
            decreases self.defines@.len() - j,
        {
            let ghost before = r@;
            let (name, value) = &self.defines[j];
            let flag = match value {
                Some(v) => {
                    let head = join3("-D", name.as_str(), "=");
                    join2(head.as_str(), v.as_str())
                },
                None => join2("-D", name.as_str()),
            };
            r.push(flag);
            proof {
                reveal_strlit("-D");
                reveal_strlit("=");
                assert(defs[j as int] == define_flag_s(self.defines@[j as int]));
                assert(strs(r@) =~= strs(before).push(defs[j as int]));
                assert(defs.subrange(0, j + 1) =~= defs.subrange(0, j as int).push(defs[j as int]));
                assert(dirs + defs.subrange(0, j + 1) =~= (dirs + defs.subrange(0, j as int)).push(defs[j as int]));
            }
            j = j + 1;
        }
        assert(defs.subrange(0, j as int) =~= defs);
        r
    }

    /// The preprocessor invocation for `input`: the compiler command, and `-E`, the
    /// search and define flags, then the input.
    pub fn describe_invocation(&self, input: &str) -> (r: (String, Vec<String>))
        ensures
            r.0@ == spec_compiler(*self),
            strs(r.1@) == seq!["-E"@] + search_define_flags(self.include_dirs@, self.defines@) + seq![input@],
    {
        let command = self.compiler_command();
        let mut args: Vec<String> = Vec::new();
        args.push("-E".to_owned());
        let flags = self.search_and_define_flags();
        let ghost a0 = args@;
        let mut i: usize = 0;
        while i < flags.len()
            invariant
                i <= flags@.len(),
                strs(args@) == strs(a0) + strs(flags@).subrange(0, i as int),
            decreases flags@.len() - i,
        {
            let ghost before = args@;
            args.push(flags[i].clone());
            assert(strs(args@) =~= strs(before).push(strs(flags@)[i as int]));
            assert(strs(flags@).subrange(0, i + 1) =~= strs(flags@).subrange(0, i as int).push(strs(flags@)[i as int]));
            i = i + 1;
        }
        let ghost before = args@;
        args.push(input.to_owned());
        proof {
            assert(strs(flags@).subrange(0, i as int) =~= strs(flags@));
            assert(strs(a0) =~= seq!["-E"@]);
            assert(strs(args@) =~= strs(before).push(input@));
        }
        (command, args)
    }

    /// The invocation that dumps macro definitions for `input`: the compiler command,
    /// and `-dD -E`, the search and define flags, then the input.
    pub fn macro_capture_invocation(&self, input: &str) -> (r: (String, Vec<String>))
        ensures
            r.0@ == spec_compiler(*self),
            strs(r.1@) == seq!["-dD"@] + (seq!["-E"@] + search_define_flags(self.include_dirs@, self.defines@) + seq![input@]),
    {
        let (command, rest) = self.describe_invocation(input);
        let mut args: Vec<String> = Vec::new();
        args.push("-dD".to_owned());
        let ghost a0 = args@;
        let mut i: usize = 0;
        while i < rest.len()
            invariant
                i <= rest@.len(),
                strs(args@) == strs(a0) + strs(rest@).subrange(0, i as int),
            decreases rest@.len() - i,
        {
            let ghost before = args@;
            args.push(rest[i].clone());
            assert(strs(args@) =~= strs(before).push(strs(rest@)[i as int]));
            assert(strs(rest@).subrange(0, i + 1) =~= strs(rest@).subrange(0, i as int).push(strs(rest@)[i as int]));
            i = i + 1;
        }
        assert(strs(rest@).subrange(0, i as int) =~= strs(rest@));
        assert(strs(a0) =~= seq!["-dD"@]);
        (command, args)
    }

    /// The macros of the `-dD` output of the macro capture, each with its provenance;
    /// nothing when the capture produced no output.
    pub fn capture_macros(&self, output: Option<&str>) -> (r: (Vec<MacroBinding>, Vec<MacroProvenance>))
        requires
            output matches Some(o) ==> byte_len(o@) + 1 <= usize::MAX,
        ensures
            output is None ==> r.0@.len() == 0 && r.1@.len() == 0,
            output matches Some(o) ==> ({
                let ms = macro_lines_with_offsets(lines_with_offsets(o@, 0, 0));
                &&& r.0@.len() == ms.len()
                &&& r.1@.len() == ms.len()
                &&& forall|i: int| 0 <= i < ms.len() ==> binding_of(#[trigger] r.0@[i], ms[i].1.0, ms[i].1.1, ms[i].1.2)
                    && r.1@[i].macro_name@ == ms[i].1.0
                &&& forall|m: FileOriginMap, i: int|
                    #![trigger parsed_map(m, o@, strs(self.entry_headers@)), r.1@[i]]
                    parsed_map(m, o@, strs(self.entry_headers@)) && 0 <= i < ms.len()
                        ==> r.1@[i].source_origin == Some(m.spec_origin_at(ms[i].0))
                        && location_is(r.1@[i].source_location, m.spec_location_at(ms[i].0))
            }),
    {
        match output {
            None => (Vec::new(), Vec::new()),
            Some(o) => {
                let headers = str_refs(&self.entry_headers);
                parse_macro_definitions_with_provenance(o, headers.as_slice())
            },
        }
    }

    /// The entry headers joined by `", "`, as a package records its source.
    pub fn source_description(&self) -> (r: String)
        ensures
            r@ == joined_headers(strs(self.entry_headers@)),
    {
        let mut out = String::new();
        let mut i: usize = 0;
        while i < self.entry_headers.len()
            invariant
                i <= self.entry_headers@.len(),
                out@ == joined_headers(strs(self.entry_headers@.subrange(0, i as int))),
            decreases self.entry_headers@.len() - i,
        {
            let ghost sub = strs(self.entry_headers@.subrange(0, i + 1));
            proof {
                assert(sub.drop_last() =~= strs(self.entry_headers@.subrange(0, i as int)));
                assert(sub.last() == self.entry_headers@[i as int]@);
            }
            if i == 0 {
                out = self.entry_headers[i].clone();
            } else {
                out = join3(out.as_str(), ", ", self.entry_headers[i].as_str());
            }
            i = i + 1;
        }
        assert(self.entry_headers@.subrange(0, i as int) =~= self.entry_headers@);
        out
    }

    /// The package of a scan whose preprocessor failed: a new package with one
    /// `PreprocessingFailed` error `"preprocessor failed: STDERR"`.
    pub fn package_from_failed_preprocessing(&self, stderr: &str) -> (r: BindingPackage)
        ensures
            has_new_metadata(r),
            r.source_path is None,
            r.items@.len() == 0,
            r.diagnostics@.len() == 1,
            r.diagnostics@[0].kind == DiagnosticKind::PreprocessingFailed,
            r.diagnostics@[0].severity == Severity::Error,
            r.diagnostics@[0].message@ == "preprocessor failed: "@ + stderr@,
    {
        let mut package = BindingPackage::new();
        let text = join2("preprocessor failed: ", stderr);
        package.diagnostics.push(Diagnostic::error(DiagnosticKind::PreprocessingFailed, text.as_str()));
        package
    }

    /// The package of a scan whose source failed to parse: the scan's metadata, no
    /// declarations, and one `ParseFailed` error `"parse error: MESSAGE"`.
    pub fn package_from_failed_parse(
        &self,
        message: &str,
        macros: Vec<MacroBinding>,
        macro_provenance: Vec<MacroProvenance>,
        target_triple: Option<String>,
        compiler_version: Option<String>,
    ) -> (r: BindingPackage)
        ensures
            scan_metadata(r, *self, macros@, macro_provenance@, target_triple, compiler_version),
            r.items@.len() == 0,
            r.provenance@.len() == 0,
            r.layouts@.len() == 0,
            r.diagnostics@.len() == 1,
            r.diagnostics@[0].kind == DiagnosticKind::ParseFailed,
            r.diagnostics@[0].severity == Severity::Error,
            r.diagnostics@[0].message@ == "parse error: "@ + message@,
    {
        let environment = build_effective_macro_environment(macros.as_slice(), macro_provenance.as_slice());
        let mut package = BindingPackage::new();
        package.source_path = Some(self.source_description());
        package.target = self.binding_target(target_triple, compiler_version);
        package.inputs = self.binding_inputs();
        package.macros = macros;
        package.macro_provenance = macro_provenance;
        package.effective_macro_environment = environment;
        package.link = self.binding_link_surface();
        let text = join2("parse error: ", message);
        package.diagnostics.push(Diagnostic::error(DiagnosticKind::ParseFailed, text.as_str()));
        package
    }

    /// The package of a parsed scan, before probing and origin filtering: the scan's
    /// metadata, the parsed declarations (each typedef with its canonical resolution)
    /// and diagnostics, and the provenance of each declaration in the preprocessed
    /// source.
    pub fn package_from_parse(
        &self,
        items: Vec<BindingItem>,
        diagnostics: Vec<Diagnostic>,
        macros: Vec<MacroBinding>,
        macro_provenance: Vec<MacroProvenance>,
        preprocessed_source: &str,
        target_triple: Option<String>,
        compiler_version: Option<String>,
    ) -> (r: BindingPackage)
        requires
            byte_len(preprocessed_source@) + 1 <= usize::MAX,
        ensures
            scan_metadata(r, *self, macros@, macro_provenance@, target_triple, compiler_version),
            r.diagnostics@ == diagnostics@,
            r.layouts@.len() == 0,
            r.items@.len() == items@.len(),
            forall|k: int| 0 <= k < items@.len() ==> alias_attached(#[trigger] items@[k], r.items@[k], item_alias_pairs(items@)),
            r.provenance@.len() == items@.len(),
            forall|m: FileOriginMap, k: int|
                #![trigger parsed_map(m, preprocessed_source@, strs(self.entry_headers@)), r.provenance@[k]]
                parsed_map(m, preprocessed_source@, strs(self.entry_headers@)) && 0 <= k < items@.len()
                    ==> provenance_for(r.provenance@[k], items@[k], m),
    {
        let environment = build_effective_macro_environment(macros.as_slice(), macro_provenance.as_slice());
        let headers = str_refs(&self.entry_headers);
        let origin_map = FileOriginMap::parse(preprocessed_source, headers.as_slice());
        let provenance = build_item_provenance(items.as_slice(), &origin_map);
        let ghost old_items = items@;
        let mut items = items;
        attach_canonical_alias_resolution(&mut items);
        let mut package = BindingPackage::new();
        package.source_path = Some(self.source_description());
        package.target = self.binding_target(target_triple, compiler_version);
        package.inputs = self.binding_inputs();
        package.macros = macros;
        package.macro_provenance = macro_provenance;
        package.effective_macro_environment = environment;
        package.link = self.binding_link_surface();
        package.items = items;
        package.diagnostics = diagnostics;
        package.provenance = provenance;
        proof {
            assert forall|m: FileOriginMap, k: int|
                #![trigger parsed_map(m, preprocessed_source@, strs(self.entry_headers@)), package.provenance@[k]]
                parsed_map(m, preprocessed_source@, strs(self.entry_headers@)) && 0 <= k < old_items.len()
                    implies provenance_for(package.provenance@[k], old_items[k], m) by {
                assert(provenance_for(package.provenance@[k], old_items[k], origin_map));
                lemma_same_map(origin_map, m, item_offset(old_items[k]).unwrap() as int);
            }
        }
        package
    }

    /// Attaches the outcome of probing the requested types to a scanned package.
    ///
    /// Nothing happens when no types were requested. A report supplies the package's
    /// layouts and the probe evidence of its declarations. An invalid configuration, or
    /// no types to probe, is returned as the error; any other failure is recorded as a
    /// warning `"probe failed: ..."` and the scan goes on.
    pub fn attach_requested_probes(&self, package: &mut BindingPackage, outcome: Result<AbiProbeReport, LincError>) -> (r: Result<(), LincError>)
        ensures
            self.probe_types@.len() == 0 ==> r is Ok && *final(package) == *old(package),
            self.probe_types@.len() > 0 ==> match outcome {
                Ok(report) => r is Ok && *final(package) == (BindingPackage {
                    layouts: report.layouts,
                    items: final(package).items,
                    ..*old(package)
                }) && final(package).items@.len() == old(package).items@.len() && forall|k: int|
                    0 <= k < old(package).items@.len() ==> probe_attached(
                        #[trigger] old(package).items@[k],
                        final(package).items@[k],
                        report.subjects@,
                    ),
                Err(e) => if e is InvalidConfig || e is NoProbeTypes {
                    r == Err::<(), LincError>(e) && *final(package) == *old(package)
                } else {
                    r is Ok && *final(package) == (BindingPackage {
                        diagnostics: final(package).diagnostics,
                        ..*old(package)
                    }) && final(package).diagnostics@.len() == old(package).diagnostics@.len() + 1
                        && final(package).diagnostics@.drop_last() == old(package).diagnostics@
                        && probe_warning(final(package).diagnostics@.last(), e)
                },
            },
    {
        if self.probe_types.len() == 0 {
            return Ok(());
        }
        match outcome {
            Ok(report) => {
                let ghost old_items = package.items@;
                package.layouts = report.layouts;
                attach_probe_evidence(&mut package.items, report.subjects.as_slice());
                Ok(())
            },
            Err(e) => {
                match e {
                    LincError::InvalidConfig { .. } => Err(e),
                    LincError::NoProbeTypes => Err(e),
                    _ => {
                        let kind = classify_probe_diagnostic_kind(&e);
                        let msg = e.to_string();
                        let text = join2("probe failed: ", msg.as_str());
                        proof {
                            let pre = "probe failed: "@;
                            let et = error_text(e);
                            if e is Io {
                                assert forall|k: int| 0 <= k < (pre + et).len() implies text@.subrange(0, (pre + et).len() as int)[k] == (pre + et)[k] by {
                                    if k >= pre.len() {
                                        assert(msg@.subrange(0, et.len() as int)[k - pre.len()] == et[k - pre.len()]);
                                    }
                                }
                                assert(text@.subrange(0, (pre + et).len() as int) =~= pre + et);
                            }
                        }
                        package.diagnostics.push(Diagnostic::warning(kind, text.as_str()));
                        Ok(())
                    },
                }
            },
        }
    }

    /// Keeps, when an origin filter is configured, only the declarations whose origin it
    /// accepts (with their provenance); otherwise the package is left as it is.
    pub fn apply_origin_filter(&self, package: &mut BindingPackage, origin_map: &FileOriginMap)
        ensures
            match self.origin_filter {
                None => *final(package) == *old(package),
                Some(f) => *final(package) == (BindingPackage {
                    items: final(package).items,
                    provenance: final(package).provenance,
                    ..*old(package)
                }) && final(package).items@ == old(package).items@.filter(keep_pred(*origin_map, f))
                    && final(package).provenance@ == kept_provenance(old(package).items@, old(package).provenance@, *origin_map, f),
            },
    {
        match &self.origin_filter {
            Some(f) => package.filter_by_origin(origin_map, f),
            None => {},
        }
    }

    /// One `#include "h"` line per entry header, in order.
    pub fn build_combined_source(&self) -> (r: String)
        ensures
            r@ == combined_source(strs(self.entry_headers@)),
    {
        let mut out = String::new();
        let mut i: usize = 0;
        while i < self.entry_headers.len()
            invariant
                i <= self.entry_headers@.len(),
                out@ == combined_source(strs(self.entry_headers@.subrange(0, i as int))),
            decreases self.entry_headers@.len() - i,
        {
            let line = join3("#include \"", self.entry_headers[i].as_str(), "\"\n");
            out = crate::text::join2(out.as_str(), line.as_str());
            proof {
                let sub = strs(self.entry_headers@.subrange(0, i + 1));
                assert(sub.drop_last() =~= strs(self.entry_headers@.subrange(0, i as int)));
                assert(sub.last() == self.entry_headers@[i as int]@);
            }
            i = i + 1;
        }
        assert(self.entry_headers@.subrange(0, i as int) =~= self.entry_headers@);
        out
    }
}

/// The target triple `-dumpmachine` printed: its output trimmed, when not empty.
pub fn target_triple_from_output(stdout: &str) -> (r: Option<String>)
    ensures
        match r {
            Some(t) => t@ == trim_s(stdout@) && t@.len() > 0,
            None => trim_s(stdout@).len() == 0,
        },
{
    let v = crate::text::chars_of(stdout);
    let (lo, hi) = crate::text::trim_range(&v, 0, v.len());
    assert(v@.subrange(0, v@.len() as int) =~= v@);
    if lo == hi {
        None
    } else {
        Some(crate::text::string_of_range(&v, lo, hi))
    }
}

/// The compiler version `--version` printed: its first line, when not empty.
pub fn compiler_version_from_output(stdout: &str) -> (r: Option<String>)
    ensures
        match r {
            Some(l) => lines_s(stdout@).len() > 0 && l@ == lines_s(stdout@)[0] && l@.len() > 0,
            None => lines_s(stdout@).len() == 0 || lines_s(stdout@)[0].len() == 0,
        },
{
    let v = crate::text::chars_of(stdout);
    let lines = crate::text::lines_of(&v);
    if lines.len() == 0 {
        return None;
    }
    assert(char_vecs(lines@)[0] == lines@[0]@);
    if lines[0].len() == 0 {
        None
    } else {
        Some(crate::text::string_of(&lines[0]))
    }
}

// ---------------------------------------------------------------------------
// Macro capture
// ---------------------------------------------------------------------------

/// A macro value by its content.
pub enum MacroValueModel {
    Integer(i128),
    Text(Seq<char>),
}

pub open spec fn value_model(v: Option<MacroValue>) -> Option<MacroValueModel> {
    match v {
        Some(MacroValue::Integer(i)) => Some(MacroValueModel::Integer(i)),
        Some(MacroValue::String(s)) => Some(MacroValueModel::Text(s@)),
        None => None,
    }
}

/// Index of the first whitespace character at or after `i` (the length when none).
pub open spec fn first_ws_from(s: Seq<char>, i: int) -> int
    decreases s.len() - i,
{
    if i < 0 || i >= s.len() {
        s.len() as int
    } else if is_ws(s[i]) {
        i
    } else {
        first_ws_from(s, i + 1)
    }
}

/// A `#define` line (after trimming): the macro name (before any parameter list), the
/// trimmed body after the first whitespace, and whether the macro is function-like.
pub open spec fn macro_line_s(line: Seq<char>) -> Option<(Seq<char>, Seq<char>, bool)> {
    let t = trim_s(line);
    if !starts_with_s(t, "#define "@) {
        None
    } else {
        let rest = t.subrange("#define "@.len() as int, t.len() as int);
        let w = first_ws_from(rest, 0);
        let head = trim_s(rest.subrange(0, w));
        let body = if w < rest.len() {
            trim_s(rest.subrange(w + 1, rest.len() as int))
        } else {
            seq![]
        };
        let fl = head.contains('(');
        let name = if fl {
            trim_s(head.subrange(0, find_char_s(head, '(')->0))
        } else {
            head
        };
        if name.len() == 0 {
            None
        } else {
            Some((name, body, fl))
        }
    }
}

/// Characters of an integer literal body: hex digits, `x`, integer suffixes, signs.
pub open spec fn int_like(c: char) -> bool {
    ||| '0' <= c && c <= '9'
    ||| 'a' <= c && c <= 'f'
    ||| 'A' <= c && c <= 'F'
    ||| c == 'x' || c == 'X' || c == 'u' || c == 'U' || c == 'l' || c == 'L' || c == '+' || c == '-'
}

/// Operator characters that make a body an expression.
pub open spec fn op_char(c: char) -> bool {
    c == '+' || c == '-' || c == '*' || c == '/' || c == '%' || c == '<' || c == '>' || c == '&'
        || c == '|' || c == '^' || c == '!' || c == '(' || c == ')'
}

/// Kind of a macro body: function-like macros are `Other`; a quoted body is a string;
/// a body of integer-literal characters an integer; one with an operator an expression.
pub open spec fn macro_kind_s(body: Seq<char>, function_like: bool) -> MacroKind {
    if function_like {
        MacroKind::Other
    } else if body.len() >= 2 && body[0] == '"' && body.last() == '"' {
        MacroKind::String
    } else {
        let t = trim_s(body);
        if t.len() > 0 && forall|i: int| 0 <= i < t.len() ==> int_like(#[trigger] t[i]) {
            MacroKind::Integer
        } else if exists|i: int| 0 <= i < t.len() && op_char(#[trigger] t[i]) {
            MacroKind::Expression
        } else {
            MacroKind::Other
        }
    }
}

/// A name that marks calling-convention or visibility macros.
pub open spec fn abi_name(name: Seq<char>) -> bool {
    contains_s(name, "CALL"@) || contains_s(name, "EXPORT"@) || contains_s(name, "IMPORT"@)
}

/// Category of a macro for downstream use.
pub open spec fn macro_category_s(name: Seq<char>, body: Seq<char>, function_like: bool) -> MacroCategory {
    if function_like {
        if abi_name(name) {
            MacroCategory::AbiAffecting
        } else {
            MacroCategory::Unsupported
        }
    } else if starts_with_s(name, "HAVE_"@) || ends_with_s(name, "_ENABLED"@) || ends_with_s(
        name,
        "_DISABLED"@,
    ) || body == "0"@ || body == "1"@ {
        MacroCategory::ConfigurationFlag
    } else if abi_name(name) || contains_s(name, "ALIGN"@) || contains_s(name, "PACK"@)
        || contains_s(name, "INLINE"@) || contains_s(name, "WEAK"@) || contains_s(
        name,
        "VISIBILITY"@,
    ) || contains_s(body, "__attribute__"@) || contains_s(body, "__declspec"@) || contains_s(
        body,
        "__stdcall"@,
    ) || contains_s(body, "__cdecl"@) || contains_s(lower_ascii(body), "visibility"@) {
        MacroCategory::AbiAffecting
    } else if macro_kind_s(body, function_like) == MacroKind::Other {
        MacroCategory::Unsupported
    } else {
        MacroCategory::BindableConstant
    }
}

/// The body without trailing integer suffixes (`u`, `U`, `l`, `L`).
pub open spec fn strip_int_suffix(s: Seq<char>) -> Seq<char>
    decreases s.len(),
{
    if s.len() > 0 && (s.last() == 'u' || s.last() == 'U' || s.last() == 'l' || s.last() == 'L') {
        strip_int_suffix(s.drop_last())
    } else {
        s
    }
}

/// Sign and digits of an integer macro body: trimmed, an optional sign, trailing
/// integer suffixes removed; none when nothing is left.
pub open spec fn int_digits_s(body: Seq<char>) -> Option<(bool, Seq<char>)> {
    let t = trim_s(body);
    if t.len() == 0 {
        None
    } else {
        let u = if t[0] == '+' || t[0] == '-' {
            t.drop_first()
        } else {
            t
        };
        let d = strip_int_suffix(u);
        if d.len() == 0 {
            None
        } else {
            Some((t[0] == '-', d))
        }
    }
}

/// Value of digits: hexadecimal after `0x`/`0X`, octal after a leading `0`, decimal
/// otherwise; negated with wrap-around when `neg`.
pub open spec fn int_value_s(neg: bool, d: Seq<char>) -> Option<i128> {
    let p = if starts_with_s(d, "0x"@) || starts_with_s(d, "0X"@) {
        parse_i128_s(d.subrange(2, d.len() as int), 16)
    } else if d.len() > 1 && d[0] == '0' {
        parse_i128_s(d.drop_first(), 8)
    } else {
        parse_i128_s(d, 10)
    };
    match p {
        Some(v) => Some(
            if neg {
                if v == i128::MIN {
                    v
                } else {
                    (-v) as i128
                }
            } else {
                v
            },
        ),
        None => None,
    }
}

/// Value of an integer macro body.
pub open spec fn int_macro_s(body: Seq<char>) -> Option<i128> {
    match int_digits_s(body) {
        Some((neg, d)) => int_value_s(neg, d),
        None => None,
    }
}

/// Base-8 value of a run of the digits `0` to `7`.
pub open spec fn octal_value(d: Seq<char>) -> int
    decreases d.len(),
{
    if d.len() == 0 {
        0
    } else {
        octal_value(d.drop_last()) * 8 + ((d.last() as int) - ('0' as int))
    }
}

/// A body of `0` and then decimal digits is taken whole, as one unsigned literal read
/// in base 8 after its leading `0`.
proof fn lemma_leading_zero_body(d: Seq<char>)
    requires
        d.len() > 0,
        forall|i: int| 0 <= i < d.len() ==> '0' <= #[trigger] d[i] <= '9',
    ensures
        int_macro_s(seq!['0'] + d) == match parse_i128_s(d, 8) {
            Some(v) => Some(v),
            None => None::<i128>,
        },
{
    reveal_strlit("0x");
    reveal_strlit("0X");
    let body = seq!['0'] + d;
    assert(body[0] == '0');
    assert(body.last() == d.last());
    crate::text::lemma_trim_unchanged(body);
    assert(strip_int_suffix(body) == body);
    assert(int_digits_s(body) == Some((false, body)));
    assert(body.subrange(0, 2)[1] == d[0]);
    assert(!starts_with_s(body, "0x"@) && !starts_with_s(body, "0X"@));
    assert(body.drop_first() =~= d);
}

/// `radix_value` in base 8 of octal digits is their octal value.
proof fn lemma_radix_value_octal(d: Seq<char>)
    requires
        forall|i: int| 0 <= i < d.len() ==> '0' <= #[trigger] d[i] <= '7',
    ensures
        crate::text::radix_value(d, 8) == octal_value(d),
        crate::text::all_radix_digits(d, 8),
    decreases d.len(),
{
    if d.len() > 0 {
        let p = d.drop_last();
        assert forall|i: int| 0 <= i < p.len() implies '0' <= #[trigger] p[i] <= '7' by {
            assert(p[i] == d[i]);
        }
        lemma_radix_value_octal(p);
        assert(d.last() == d[d.len() - 1]);
        assert forall|i: int| 0 <= i < d.len() implies (#[trigger] crate::text::digit_in(d[i], 8)) is Some by {
            if i < d.len() - 1 {
                assert(d[i] == p[i]);
            }
        }
    }
}

/// C octal literals: a macro body `0` followed by digits `0` to `7` has the base-8
/// value of those digits (so `010` is 8), where that value fits in an `i128`.
pub proof fn lemma_octal_macro_value(d: Seq<char>)
    requires
        d.len() > 0,
        forall|i: int| 0 <= i < d.len() ==> '0' <= #[trigger] d[i] <= '7',
        octal_value(d) < 0x8000_0000_0000_0000_0000_0000_0000_0000,
    ensures
        int_macro_s(seq!['0'] + d) == Some(octal_value(d) as i128),
{
    assert forall|i: int| 0 <= i < d.len() implies '0' <= #[trigger] d[i] <= '9' by {
        assert('0' <= d[i] <= '7');
    }
    lemma_leading_zero_body(d);
    lemma_radix_value_octal(d);
    assert(d[0] != '-' && d[0] != '+');
}

/// After a leading `0`, a digit `8` or `9` is no octal digit: such a body has no value.
pub proof fn lemma_leading_zero_non_octal_digit(d: Seq<char>, k: int)
    requires
        d.len() > 0,
        forall|i: int| 0 <= i < d.len() ==> '0' <= #[trigger] d[i] <= '9',
        0 <= k < d.len(),
        d[k] == '8' || d[k] == '9',
    ensures
        int_macro_s(seq!['0'] + d) is None,
{
    lemma_leading_zero_body(d);
    assert(crate::text::digit_in(d[k], 8) is None);
    assert(!crate::text::all_radix_digits(d, 8));
    assert(d[0] != '-' && d[0] != '+');
}

/// Value of a hexadecimal digit.
pub open spec fn hex_digit_value(c: char) -> int {
    if '0' <= c <= '9' {
        (c as int) - ('0' as int)
    } else if 'a' <= c <= 'f' {
        (c as int) - ('a' as int) + 10
    } else {
        (c as int) - ('A' as int) + 10
    }
}

pub open spec fn is_hex_digit(c: char) -> bool {
    ('0' <= c <= '9') || ('a' <= c <= 'f') || ('A' <= c <= 'F')
}

/// Base-16 value of a run of hexadecimal digits.
pub open spec fn hex_value(h: Seq<char>) -> int
    decreases h.len(),
{
    if h.len() == 0 {
        0
    } else {
        hex_value(h.drop_last()) * 16 + hex_digit_value(h.last())
    }
}

proof fn lemma_radix_value_hex(h: Seq<char>)
    requires
        forall|i: int| 0 <= i < h.len() ==> is_hex_digit(#[trigger] h[i]),
    ensures
        crate::text::radix_value(h, 16) == hex_value(h),
        crate::text::all_radix_digits(h, 16),
    decreases h.len(),
{
    if h.len() > 0 {
        let p = h.drop_last();
        assert forall|i: int| 0 <= i < p.len() implies is_hex_digit(#[trigger] p[i]) by {
            assert(p[i] == h[i]);
        }
        lemma_radix_value_hex(p);
        assert(h.last() == h[h.len() - 1]);
        assert forall|i: int| 0 <= i < h.len() implies (#[trigger] crate::text::digit_in(h[i], 16)) is Some by {
            if i < h.len() - 1 {
                assert(h[i] == p[i]);
            }
        }
    }
}

proof fn lemma_radix_value_dec(d: Seq<char>)
    requires
        forall|i: int| 0 <= i < d.len() ==> '0' <= #[trigger] d[i] <= '9',
    ensures
        crate::text::radix_value(d, 10) == crate::text::dec_value(d),
        crate::text::all_radix_digits(d, 10),
    decreases d.len(),
{
    if d.len() > 0 {
        let p = d.drop_last();
        assert forall|i: int| 0 <= i < p.len() implies '0' <= #[trigger] p[i] <= '9' by {
            assert(p[i] == d[i]);
        }
        lemma_radix_value_dec(p);
        assert(d.last() == d[d.len() - 1]);
        assert forall|i: int| 0 <= i < d.len() implies (#[trigger] crate::text::digit_in(d[i], 10)) is Some by {
            if i < d.len() - 1 {
                assert(d[i] == p[i]);
            }
        }
    }
}

/// Decimal literals: a body of decimal digits without a leading `0` (or the single
/// digit `0`) has their decimal value, where that value fits in an `i128`.
pub proof fn lemma_decimal_macro_value(d: Seq<char>)
    requires
        d.len() > 0,
        forall|i: int| 0 <= i < d.len() ==> '0' <= #[trigger] d[i] <= '9',
        d.len() == 1 || d[0] != '0',
        crate::text::dec_value(d) < 0x8000_0000_0000_0000_0000_0000_0000_0000,
    ensures
        int_macro_s(d) == Some(crate::text::dec_value(d) as i128),
{
    reveal_strlit("0x");
    reveal_strlit("0X");
    assert(d.last() == d[d.len() - 1]);
    crate::text::lemma_trim_unchanged(d);
    assert(strip_int_suffix(d) == d);
    assert(int_digits_s(d) == Some((false, d)));
    if d.len() >= 2 {
        assert(d.subrange(0, 2)[0] == d[0]);
        assert(d.subrange(0, 2)[1] == d[1]);
    }
    assert(!starts_with_s(d, "0x"@) && !starts_with_s(d, "0X"@));
    lemma_radix_value_dec(d);
}

/// Hexadecimal literals: a body `0x` followed by hexadecimal digits has their base-16
/// value (so `0x1F` is 31), where that value fits in an `i128`.
pub proof fn lemma_hex_macro_value(h: Seq<char>)
    requires
        h.len() > 0,
        forall|i: int| 0 <= i < h.len() ==> is_hex_digit(#[trigger] h[i]),
        hex_value(h) < 0x8000_0000_0000_0000_0000_0000_0000_0000,
    ensures
        int_macro_s("0x"@ + h) == Some(hex_value(h) as i128),
{
    reveal_strlit("0x");
    let b = "0x"@ + h;
    assert(b[0] == '0');
    assert(b.last() == h[h.len() - 1]);
    crate::text::lemma_trim_unchanged(b);
    assert(strip_int_suffix(b) == b);
    assert(int_digits_s(b) == Some((false, b)));
    assert(b.subrange(0, 2) =~= "0x"@);
    assert(b.subrange(2, b.len() as int) =~= h);
    lemma_radix_value_hex(h);
    assert(h[0] != '-' && h[0] != '+');
}

/// Only the characters `u`, `U`, `l` and `L`.
pub open spec fn is_int_suffix(s: Seq<char>) -> bool {
    forall|i: int| 0 <= i < s.len() ==> (#[trigger] s[i] == 'u' || s[i] == 'U' || s[i] == 'l' || s[i] == 'L')
}

proof fn lemma_strip_suffix_of_digits(d: Seq<char>, s: Seq<char>)
    requires
        d.len() > 0,
        '0' <= d.last() <= '9',
        is_int_suffix(s),
    ensures
        strip_int_suffix(d + s) == d,
    decreases s.len(),
{
    if s.len() == 0 {
        assert(d + s =~= d);
    } else {
        assert((d + s).last() == s[s.len() - 1]);
        assert((d + s).drop_last() =~= d + s.drop_last());
        assert forall|i: int| 0 <= i < s.drop_last().len() implies (#[trigger] s.drop_last()[i] == 'u'
            || s.drop_last()[i] == 'U' || s.drop_last()[i] == 'l' || s.drop_last()[i] == 'L') by {
            assert(s.drop_last()[i] == s[i]);
        }
        lemma_strip_suffix_of_digits(d, s.drop_last());
    }
}

/// Integer suffixes do not change a value: digits followed by any run of `u`, `U`,
/// `l` and `L` have the value of the digits alone.
pub proof fn lemma_int_suffix_ignored(d: Seq<char>, s: Seq<char>)
    requires
        d.len() > 0,
        forall|i: int| 0 <= i < d.len() ==> '0' <= #[trigger] d[i] <= '9',
        is_int_suffix(s),
    ensures
        int_macro_s(d + s) == int_macro_s(d),
{
    let b = d + s;
    assert(d.last() == d[d.len() - 1]);
    assert(b[0] == d[0]);
    if s.len() > 0 {
        assert(b.last() == s[s.len() - 1]);
    } else {
        assert(b =~= d);
    }
    crate::text::lemma_trim_unchanged(b);
    crate::text::lemma_trim_unchanged(d);
    lemma_strip_suffix_of_digits(d, s);
    lemma_strip_suffix_of_digits(d, seq![]);
    assert(d + seq![] =~= d);
}

/// A leading `-` negates the value of the digits that follow.
pub proof fn lemma_negated_macro_value(d: Seq<char>)
    requires
        d.len() > 0,
        forall|i: int| 0 <= i < d.len() ==> '0' <= #[trigger] d[i] <= '9',
    ensures
        int_macro_s(seq!['-'] + d) == match int_macro_s(d) {
            Some(v) => Some(
                if v == i128::MIN {
                    v
                } else {
                    (-v) as i128
                },
            ),
            None => None,
        },
{
    let b = seq!['-'] + d;
    assert(d.last() == d[d.len() - 1]);
    assert(b.last() == d.last());
    crate::text::lemma_trim_unchanged(b);
    crate::text::lemma_trim_unchanged(d);
    assert(b.drop_first() =~= d);
    assert(strip_int_suffix(d) == d);
    assert(int_digits_s(b) == Some((true, d)));
    assert(int_digits_s(d) == Some((false, d)));
}

/// Value of a quoted macro body with `\"`, `\\`, `\n` and `\t` unescaped, in that order.
pub open spec fn string_macro_s(body: Seq<char>) -> Option<Seq<char>> {
    let t = trim_s(body);
    if t.len() >= 2 && t[0] == '"' && t.last() == '"' {
        let inner = t.subrange(1, t.len() - 1);
        Some(
            replace_s(
                replace_s(replace_s(replace_s(inner, "\\\""@, "\""@), "\\\\"@, "\\"@), "\\n"@, "\n"@),
                "\\t"@,
                "\t"@,
            ),
        )
    } else {
        None
    }
}

/// Value of a macro: integers and strings of object-like macros.
pub open spec fn macro_value_s(body: Seq<char>, function_like: bool) -> Option<MacroValueModel> {
    if function_like {
        None
    } else {
        match macro_kind_s(body, function_like) {
            MacroKind::Integer => match int_macro_s(body) {
                Some(v) => Some(MacroValueModel::Integer(v)),
                None => None,
            },
            MacroKind::String => match string_macro_s(body) {
                Some(s) => Some(MacroValueModel::Text(s)),
                None => None,
            },
            _ => None,
        }
    }
}

/// `m` is the macro binding of a name, body and function-likeness.
pub open spec fn binding_of(m: MacroBinding, name: Seq<char>, body: Seq<char>, function_like: bool) -> bool {
    &&& m.name@ == name && m.body@ == body && m.function_like == function_like
    &&& m.form == (if function_like {
        MacroForm::FunctionLike
    } else {
        MacroForm::ObjectLike
    })
    &&& m.kind == macro_kind_s(body, function_like)
    &&& m.category == macro_category_s(name, body, function_like)
    &&& value_model(m.value) == macro_value_s(body, function_like)
}

/// Kind of a macro body.
pub fn classify_macro_body(body: &str, function_like: bool) -> (r: MacroKind)
    ensures
        r == macro_kind_s(body@, function_like),
{
    let v = chars_of(body);
    kind_of_chars(&v, function_like)
}

fn kind_of_chars(v: &Vec<char>, function_like: bool) -> (r: MacroKind)
    ensures
        r == macro_kind_s(v@, function_like),
{
    if function_like {
        return MacroKind::Other;
    }
    if v.len() >= 2 && v[0] == '"' && v[v.len() - 1] == '"' {
        return MacroKind::String;
    }
    let (lo, hi) = trim_range(v, 0, v.len());
    assert(v@.subrange(0, v@.len() as int) =~= v@);
    let ghost t = trim_s(v@);
    assert(t =~= v@.subrange(lo as int, hi as int));
    let mut i = lo;
    while i < hi && int_like_exec(v[i])
        invariant
            lo <= i <= hi <= v@.len(),
            t == v@.subrange(lo as int, hi as int),
            forall|k: int| 0 <= k < i - lo ==> int_like(#[trigger] t[k]),
        decreases hi - i,
    {
        assert(t[i - lo] == v@[i as int]);
        i = i + 1;
    }
    if lo < hi && i == hi {
        return MacroKind::Integer;
    }
    proof {
        if i < hi {
            assert(t[i - lo] == v@[i as int]);
            assert(!int_like(t[i - lo]));
        }
    }
    let mut j = lo;
    while j < hi && !op_char_exec(v[j])
        invariant
            lo <= j <= hi <= v@.len(),
            t == v@.subrange(lo as int, hi as int),
            forall|k: int| 0 <= k < j - lo ==> !op_char(#[trigger] t[k]),
        decreases hi - j,
    {
        assert(t[j - lo] == v@[j as int]);
        j = j + 1;
    }
    if j < hi {
        assert(t[j - lo] == v@[j as int]);
        MacroKind::Expression
    } else {
        MacroKind::Other
    }
}

fn int_like_exec(c: char) -> (r: bool)
    ensures
        r == int_like(c),
{
    ('0' <= c && c <= '9') || ('a' <= c && c <= 'f') || ('A' <= c && c <= 'F') || c == 'x' || c
        == 'X' || c == 'u' || c == 'U' || c == 'l' || c == 'L' || c == '+' || c == '-'
}

fn op_char_exec(c: char) -> (r: bool)
    ensures
        r == op_char(c),
{
    c == '+' || c == '-' || c == '*' || c == '/' || c == '%' || c == '<' || c == '>' || c == '&'
        || c == '|' || c == '^' || c == '!' || c == '(' || c == ')'
}

/// Category of a macro for downstream use.
pub fn classify_macro_category(name: &str, body: &str, function_like: bool) -> (r: MacroCategory)
    ensures
        r == macro_category_s(name@, body@, function_like),
{
    let n = chars_of(name);
    let b = chars_of(body);
    let abi = contains(&n, "CALL") || contains(&n, "EXPORT") || contains(&n, "IMPORT");
    if function_like {
        if abi {
            return MacroCategory::AbiAffecting;
        }
        return MacroCategory::Unsupported;
    }
    if starts_with(&n, "HAVE_") || ends_with(&n, "_ENABLED") || ends_with(&n, "_DISABLED")
        || is_text(&b, "0") || is_text(&b, "1") {
        return MacroCategory::ConfigurationFlag;
    }
    let lower = lower_ascii_chars(&b);
    if abi || contains(&n, "ALIGN") || contains(&n, "PACK") || contains(&n, "INLINE") || contains(
        &n,
        "WEAK",
    ) || contains(&n, "VISIBILITY") || contains(&b, "__attribute__") || contains(&b, "__declspec")
        || contains(&b, "__stdcall") || contains(&b, "__cdecl") || contains(&lower, "visibility") {
        return MacroCategory::AbiAffecting;
    }
    match kind_of_chars(&b, function_like) {
        MacroKind::Other => MacroCategory::Unsupported,
        _ => MacroCategory::BindableConstant,
    }
}

fn is_text(v: &Vec<char>, t: &str) -> (r: bool)
    ensures
        r == (v@ == t@),
{
    crate::text::chars_eq(v, &chars_of(t))
}

/// Sign and digit range of an integer macro body.
fn int_digits(v: &Vec<char>) -> (r: Option<(bool, usize, usize)>)
    ensures
        match r {
            Some((neg, a, b)) => a <= b <= v@.len() && int_digits_s(v@) == Some((neg, v@.subrange(a as int, b as int))),
            None => int_digits_s(v@) is None,
        },
{
    let (lo, hi) = trim_range(v, 0, v.len());
    assert(v@.subrange(0, v@.len() as int) =~= v@);
    let ghost t = trim_s(v@);
    assert(t =~= v@.subrange(lo as int, hi as int));
    if lo == hi {
        return None;
    }
    assert(t[0] == v@[lo as int]);
    let neg = v[lo] == '-';
    let start = if v[lo] == '+' || v[lo] == '-' {
        lo + 1
    } else {
        lo
    };
    let ghost u = v@.subrange(start as int, hi as int);
    assert(u =~= if t[0] == '+' || t[0] == '-' {
        t.drop_first()
    } else {
        t
    });
    let mut end = hi;
    while end > start && (v[end - 1] == 'u' || v[end - 1] == 'U' || v[end - 1] == 'l' || v[end - 1]
        == 'L')
        invariant
            start <= end <= hi <= v@.len(),
            strip_int_suffix(u) == strip_int_suffix(v@.subrange(start as int, end as int)),
        decreases end,
    {
        let ghost cur = v@.subrange(start as int, end as int);
        assert(cur.drop_last() =~= v@.subrange(start as int, end - 1));
        end = end - 1;
    }
    if start == end {
        return None;
    }
    Some((neg, start, end))
}

/// Value of the digits `v[a..b]`.
fn int_value(v: &Vec<char>, neg: bool, a: usize, b: usize) -> (r: Option<i128>)
    requires
        a < b <= v@.len(),
    ensures
        r == int_value_s(neg, v@.subrange(a as int, b as int)),
{
    let ghost d = v@.subrange(a as int, b as int);
    let dv = slice_chars(v, a, b);
    let parsed = if starts_with(&dv, "0x") || starts_with(&dv, "0X") {
        proof {
            reveal_strlit("0x");
            reveal_strlit("0X");
        }
        assert(v@.subrange(a + 2, b as int) =~= d.subrange(2, d.len() as int));
        parse_i128_range(v, a + 2, b, 16)
    } else if b - a > 1 && v[a] == '0' {
        assert(v@.subrange(a + 1, b as int) =~= d.drop_first());
        parse_i128_range(v, a + 1, b, 8)
    } else {
        parse_i128_range(v, a, b, 10)
    };
    match parsed {
        Some(p) => Some(
            if neg {
                if p == i128::MIN {
                    p
                } else {
                    -p
                }
            } else {
                p
            },
        ),
        None => None,
    }
}

/// Value of an integer macro body.
pub fn parse_integer_macro_value(body: &str) -> (r: Option<i128>)
    ensures
        r == int_macro_s(body@),
{
    let v = chars_of(body);
    match int_digits(&v) {
        Some((neg, a, b)) => int_value(&v, neg, a, b),
        None => None,
    }
}

/// Value of a quoted macro body, unescaped.
pub fn parse_string_macro_value(body: &str) -> (r: Option<String>)
    ensures
        match r {
            Some(s) => string_macro_s(body@) == Some(s@),
            None => string_macro_s(body@) is None,
        },
{
    let v = chars_of(body);
    let (lo, hi) = trim_range(&v, 0, v.len());
    assert(v@.subrange(0, v@.len() as int) =~= v@);
    let ghost t = trim_s(body@);
    assert(t =~= v@.subrange(lo as int, hi as int));
    if hi - lo >= 2 && v[lo] == '"' && v[hi - 1] == '"' {
        assert(t[0] == v@[lo as int] && t.last() == v@[hi - 1]);
        let inner = slice_chars(&v, lo + 1, hi - 1);
        assert(inner@ =~= t.subrange(1, t.len() - 1));
        proof {
            reveal_strlit("\\\"");
            reveal_strlit("\\\\");
            reveal_strlit("\\n");
            reveal_strlit("\\t");
        }
        let a = replace_chars(&inner, "\\\"", "\"");
        let b = replace_chars(&a, "\\\\", "\\");
        let c = replace_chars(&b, "\\n", "\n");
        let d = replace_chars(&c, "\\t", "\t");
        Some(string_of(&d))
    } else {
        proof {
            if hi - lo >= 2 {
                assert(t[0] == v@[lo as int] && t.last() == v@[hi - 1]);
            }
        }
        None
    }
}

/// Value of a macro: integers and strings of object-like macros.
pub fn parse_macro_value(body: &str, function_like: bool) -> (r: Option<MacroValue>)
    ensures
        value_model(r) == macro_value_s(body@, function_like),
{
    if function_like {
        return None;
    }
    match classify_macro_body(body, function_like) {
        MacroKind::Integer => match parse_integer_macro_value(body) {
            Some(v) => Some(MacroValue::Integer(v)),
            None => None,
        },
        MacroKind::String => match parse_string_macro_value(body) {
            Some(s) => Some(MacroValue::String(s)),
            None => None,
        },
        _ => None,
    }
}

/// The macro a `#define` line declares, if it is one.
pub fn parse_macro_definition_line(line: &str) -> (r: Option<MacroBinding>)
    ensures
        match macro_line_s(line@) {
            Some((name, body, fl)) => r matches Some(m) && binding_of(m, name, body, fl),
            None => r.is_none(),
        },
{
    let v = chars_of(line);
    let (lo, hi) = trim_range(&v, 0, v.len());
    assert(v@.subrange(0, v@.len() as int) =~= v@);
    let t = slice_chars(&v, lo, hi);
    if !starts_with(&t, "#define ") {
        return None;
    }
    proof {
        reveal_strlit("#define ");
    }
    let rest = slice_chars(&t, 8, t.len());
    let mut w: usize = 0;
    while w < rest.len() && !is_whitespace(rest[w])
        invariant
            w <= rest@.len(),
            first_ws_from(rest@, 0) == first_ws_from(rest@, w as int),
        decreases rest@.len() - w,
    {
        w = w + 1;
    }
    let (hlo, hhi) = trim_range(&rest, 0, w);
    let head = slice_chars(&rest, hlo, hhi);
    let body = if w < rest.len() {
        let (blo, bhi) = trim_range(&rest, w + 1, rest.len());
        slice_chars(&rest, blo, bhi)
    } else {
        Vec::new()
    };
    let fl = has_char(&head, '(');
    let name = if fl {
        let p = match find_char_from(&head, '(', 0) {
            Some(p) => p,
            None => head.len(),
        };
        proof {
            crate::text::lemma_find_from_some(head@, seq!['('], 0);
            let q = choose|q: int| 0 <= q < head@.len() && head@[q] == '(';
            assert(crate::text::occurs_at(head@, seq!['('], q)) by {
                assert(head@.subrange(q, q + 1) =~= seq!['(']);
            }
        }
        let (nlo, nhi) = trim_range(&head, 0, p);
        slice_chars(&head, nlo, nhi)
    } else {
        head
    };
    if name.len() == 0 {
        return None;
    }
    let name_s = string_of(&name);
    let body_s = string_of(&body);
    Some(
        MacroBinding {
            kind: classify_macro_body(body_s.as_str(), fl),
            category: classify_macro_category(name_s.as_str(), body_s.as_str(), fl),
            value: parse_macro_value(body_s.as_str(), fl),
            name: name_s,
            body: body_s,
            function_like: fl,
            form: if fl {
                MacroForm::FunctionLike
            } else {
                MacroForm::ObjectLike
            },
        },
    )
}

/// Macros of every `#define` line of the source, in order.
pub open spec fn macros_of(lines: Seq<Seq<char>>) -> Seq<(Seq<char>, Seq<char>, bool)>
    decreases lines.len(),
{
    if lines.len() == 0 {
        seq![]
    } else {
        macros_of(lines.drop_last()) + match macro_line_s(lines.last()) {
            Some(m) => seq![m],
            None => seq![],
        }
    }
}

/// The macros declared by the `#define` lines of `source`, in order.
pub fn parse_macro_definitions(source: &str) -> (r: Vec<MacroBinding>)
    ensures
        r@.len() == macros_of(lines_s(source@)).len(),
        forall|i: int|
            0 <= i < r@.len() ==> {
                let m = macros_of(lines_s(source@))[i];
                binding_of(#[trigger] r@[i], m.0, m.1, m.2)
            },
{
    let v = chars_of(source);
    let lines = crate::text::lines_of(&v);
    let ghost ls = lines_s(source@);
    let mut r: Vec<MacroBinding> = Vec::new();
    let mut i: usize = 0;
    while i < lines.len()
        invariant
            i <= lines@.len(),
            char_vecs(lines@) == ls,
            r@.len() == macros_of(ls.subrange(0, i as int)).len(),
            forall|k: int|
                0 <= k < r@.len() ==> {
                    let m = macros_of(ls.subrange(0, i as int))[k];
                    binding_of(#[trigger] r@[k], m.0, m.1, m.2)
                },
        decreases lines@.len() - i,
    {
        let ghost sub = ls.subrange(0, i + 1);
        let ghost prev = macros_of(ls.subrange(0, i as int));
        assert(sub.drop_last() =~= ls.subrange(0, i as int));
        assert(sub.last() == lines@[i as int]@);
        let text = string_of(&lines[i]);
        match parse_macro_definition_line(text.as_str()) {
            Some(m) => {
                r.push(m);
                proof {
                    let now = macros_of(sub);
                    assert forall|k: int| 0 <= k < r@.len() implies {
                        let mm = now[k];
                        binding_of(#[trigger] r@[k], mm.0, mm.1, mm.2)
                    } by {
                        if k < prev.len() {
                            assert(now[k] == prev[k]);
                        }
                    }
                }
            },
            None => {
                assert(macros_of(sub) =~= prev);
            },
        }
        i = i + 1;
    }
    assert(ls.subrange(0, i as int) =~= ls);
    r
}

// ---------------------------------------------------------------------------
// Provenance of macros and declarations
// ---------------------------------------------------------------------------

/// The pieces of `s[pos..]` between newlines, each with its byte offset (counting
/// from `off` at `pos`).
pub open spec fn lines_with_offsets(s: Seq<char>, pos: int, off: int) -> Seq<(int, Seq<char>)>
    decreases s.len() + 1 - pos,
{
    if pos < 0 || pos > s.len() {
        seq![]
    } else {
        match find_from(s, seq!['\n'], pos) {
            Some(i) => if pos <= i < s.len() {
                seq![(off, s.subrange(pos, i))] + lines_with_offsets(
                    s,
                    i + 1,
                    off + byte_len(s.subrange(pos, i)) + 1,
                )
            } else {
                seq![]
            },
            None => seq![(off, s.subrange(pos, s.len() as int))],
        }
    }
}

/// The `#define` lines among them, with the offsets where they start.
pub open spec fn macro_lines_with_offsets(lines: Seq<(int, Seq<char>)>) -> Seq<(int, (Seq<char>, Seq<char>, bool))>
    decreases lines.len(),
{
    if lines.len() == 0 {
        seq![]
    } else {
        macro_lines_with_offsets(lines.drop_last()) + match macro_line_s(lines.last().1) {
            Some(m) => seq![(lines.last().0, m)],
            None => seq![],
        }
    }
}

/// A map built by `FileOriginMap::parse` from this source and these entry headers.
pub open spec fn parsed_map(m: FileOriginMap, source: Seq<char>, entries: Seq<Seq<char>>) -> bool {
    m.spec_ranges() == markers_from(source, 0) && m.spec_entries() == entries && m.spec_source()
        == source
}

/// A location reported for a byte offset, by its values.
pub open spec fn location_is(l: Option<SourceLocation>, s: Option<(Seq<char>, int, nat)>) -> bool {
    match (l, s) {
        (Some(x), Some(y)) => x.file@ == y.0 && x.line == Some(y.1 as usize) && x.column == Some(
            y.2 as usize,
        ),
        (None, None) => true,
        _ => false,
    }
}

/// The macros and provenance gathered from `lines`: one of each per `#define` line.
pub open spec fn macro_state(
    macros: Seq<MacroBinding>,
    prov: Seq<MacroProvenance>,
    map: FileOriginMap,
    lines: Seq<(int, Seq<char>)>,
) -> bool {
    let ms = macro_lines_with_offsets(lines);
    &&& macros.len() == ms.len()
    &&& prov.len() == ms.len()
    &&& forall|i: int| 0 <= i < ms.len() ==> macro_entry_ok(#[trigger] macros[i], prov[i], map, ms[i])
}

/// One gathered macro and its provenance agree with the `#define` line at an offset.
pub open spec fn macro_entry_ok(
    b: MacroBinding,
    p: MacroProvenance,
    map: FileOriginMap,
    e: (int, (Seq<char>, Seq<char>, bool)),
) -> bool {
    binding_of(b, e.1.0, e.1.1, e.1.2) && p.macro_name@ == e.1.0 && p.source_origin == Some(
        map.spec_origin_at(e.0),
    ) && location_is(p.source_location, map.spec_location_at(e.0))
}

/// Pushing the binding and provenance of one more `#define` line keeps the state.
proof fn lemma_macro_state_push(
    macros: Seq<MacroBinding>,
    prov: Seq<MacroProvenance>,
    map: FileOriginMap,
    seen: Seq<(int, Seq<char>)>,
    line_start: int,
    line: Seq<char>,
    mm: (Seq<char>, Seq<char>, bool),
    binding: MacroBinding,
    p: MacroProvenance,
)
    requires
        macro_state(macros, prov, map, seen),
        macro_line_s(line) == Some(mm),
        binding_of(binding, mm.0, mm.1, mm.2),
        p.macro_name@ == mm.0,
        p.source_origin == Some(map.spec_origin_at(line_start)),
        location_is(p.source_location, map.spec_location_at(line_start)),
    ensures
        macro_state(macros.push(binding), prov.push(p), map, seen.push((line_start, line))),
{
    let seen2 = seen.push((line_start, line));
    let before = macro_lines_with_offsets(seen);
    let ms = macro_lines_with_offsets(seen2);
    assert(seen2.drop_last() =~= seen);
    assert(ms =~= before.push((line_start, mm)));
    let m2 = macros.push(binding);
    let p2 = prov.push(p);
    assert forall|i: int| 0 <= i < ms.len() implies macro_entry_ok(#[trigger] m2[i], p2[i], map, ms[i]) by {
        if i < before.len() {
            assert(ms[i] == before[i]);
            assert(m2[i] == macros[i]);
            assert(p2[i] == prov[i]);
        }
    }
}

/// Records the macro of one line, if it defines one.
#[verifier::spinoff_prover]
fn add_macro_line(
    map: &FileOriginMap,
    macros: &mut Vec<MacroBinding>,
    provenance: &mut Vec<MacroProvenance>,
    line: &str,
    line_start: usize,
    Ghost(seen): Ghost<Seq<(int, Seq<char>)>>,
)
    requires
        macro_state(old(macros)@, old(provenance)@, *map, seen),
    ensures
        macro_state(final(macros)@, final(provenance)@, *map, seen.push((line_start as int, line@))),
{
    let ghost before = macro_lines_with_offsets(seen);
    let ghost seen2 = seen.push((line_start as int, line@));
    let ghost old_macros = macros@;
    let ghost old_prov = provenance@;
    assert(seen2.drop_last() =~= seen);
    match parse_macro_definition_line(line) {
        Some(binding) => {
            let origin = map.origin_at(line_start);
            let location = map.location_at(line_start);
            let p = MacroProvenance {
                macro_name: binding.name.clone(),
                source_origin: Some(origin),
                source_location: location,
            };
            let ghost gb = binding;
            let ghost gp = p;
            proof {
                lemma_macro_state_push(old_macros, old_prov, *map, seen, line_start as int, line@, macro_line_s(line@)->0, gb, gp);
            }
            provenance.push(p);
            macros.push(binding);
            assert(macros@ =~= old_macros.push(gb));
            assert(provenance@ =~= old_prov.push(gp));
        },
        None => {
            assert(seen2.last() == (line_start as int, line@));
            assert(macro_lines_with_offsets(seen2) == before);
            assert(macros@ == old_macros);
            assert(provenance@ == old_prov);
            assert(macro_state(macros@, provenance@, *map, seen2));
        },
    }
    assert(macro_state(macros@, provenance@, *map, seen2));
}

/// The macros of `-dD` preprocessor output, each with the origin and location of the
/// line that defines it.
pub fn parse_macro_definitions_with_provenance(source: &str, entry_headers: &[&str]) -> (r: (
    Vec<MacroBinding>,
    Vec<MacroProvenance>,
))
    requires
        byte_len(source@) + 1 <= usize::MAX,
    ensures
        ({
            let ms = macro_lines_with_offsets(lines_with_offsets(source@, 0, 0));
            &&& r.0@.len() == ms.len()
            &&& r.1@.len() == ms.len()
            &&& forall|i: int|
                0 <= i < ms.len() ==> binding_of(#[trigger] r.0@[i], ms[i].1.0, ms[i].1.1, ms[i].1.2)
                    && r.1@[i].macro_name@ == ms[i].1.0
            &&& forall|m: FileOriginMap, i: int|
                #![trigger parsed_map(m, source@, strs_ref(entry_headers@)), r.1@[i]]
                parsed_map(m, source@, strs_ref(entry_headers@)) && 0 <= i < ms.len()
                    ==> r.1@[i].source_origin == Some(m.spec_origin_at(ms[i].0))
                    && location_is(r.1@[i].source_location, m.spec_location_at(ms[i].0))
        }),
{
    let map = FileOriginMap::parse(source, entry_headers);
    let v = chars_of(source);
    let ghost all = lines_with_offsets(source@, 0, 0);
    let mut macros: Vec<MacroBinding> = Vec::new();
    let mut provenance: Vec<MacroProvenance> = Vec::new();
    let mut pos: usize = 0;
    let mut offset: usize = 0;
    let mut done = false;
    let ghost mut seen: Seq<(int, Seq<char>)> = seq![];
    proof {
        lemma_byte_len_ge_len(v@);
        assert(macro_lines_with_offsets(seen) =~= seq![]);
    }
    while !done
        invariant
            v@ == source@,
            v@.len() < usize::MAX,
            byte_len(source@) + 1 <= usize::MAX,
            parsed_map(map, source@, strs_ref(entry_headers@)),
            !done ==> pos <= v@.len() && offset == byte_len(v@.subrange(0, pos as int)),
            !done ==> all == seen + lines_with_offsets(v@, pos as int, offset as int),
            done ==> all == seen,
            macro_state(macros@, provenance@, map, seen),
        decreases (if done { 0 } else { v@.len() + 1 - pos }),
    {
        let found = find_char_from(&v, '\n', pos);
        proof {
            crate::text::lemma_find_from_some(v@, seq!['\n'], pos as int);
        }
        let end = match found {
            Some(i) => i,
            None => v.len(),
        };
        let ghost piece = v@.subrange(pos as int, end as int);
        proof {
            lemma_byte_len_split(v@.subrange(0, end as int), pos as int);
            assert(v@.subrange(0, end as int).subrange(0, pos as int) =~= v@.subrange(0, pos as int));
            assert(v@.subrange(0, end as int).subrange(pos as int, end as int) =~= piece);
            crate::line_markers::lemma_byte_len_prefix(v@, end as int);
        }
        let line_start = offset;
        let text = crate::text::string_of_range(&v, pos, end);
        let ghost entry = (line_start as int, piece);
        add_macro_line(&map, &mut macros, &mut provenance, text.as_str(), line_start, Ghost(seen));
        let ghost seen2 = seen.push(entry);
        proof {
            assert(seen2.drop_last() =~= seen);
            seen = seen2;
        }
        match found {
            Some(i) => {
                proof {
                    lemma_byte_len_split(v@.subrange(0, i + 1), i as int);
                    assert(v@.subrange(0, i + 1).subrange(0, i as int) =~= v@.subrange(0, i as int));
                    assert(v@.subrange(0, i + 1).subrange(i as int, i + 1) =~= seq![v@[i as int]]);
                    assert(v@[i as int] == '\n') by {
                        assert(v@.subrange(i as int, i + 1) == seq!['\n']);
                        assert(v@.subrange(i as int, i + 1)[0] == v@[i as int]);
                    }
                    assert(byte_len(seq![v@[i as int]]) == 1) by {
                        assert(seq![v@[i as int]].drop_last() =~= Seq::<char>::empty());
                    }
                    crate::line_markers::lemma_byte_len_prefix(v@, i + 1);
                    let rest = lines_with_offsets(v@, i + 1, offset + byte_len(piece) + 1);
                    assert(lines_with_offsets(v@, pos as int, offset as int) == seq![entry] + rest);
                    assert(seen2 + rest =~= seen2.drop_last() + (seq![entry] + rest));
                    assert(all == seen + rest);
                }
                assert(i < v@.len());
                let len = crate::line_markers::char_bytes(&v, pos, i);
                offset = offset + len + 1;
                pos = i + 1;
            },
            None => {
                done = true;
                proof {
                    assert(lines_with_offsets(v@, pos as int, offset as int) == seq![entry]);
                    assert(seen2.drop_last() + seq![entry] =~= seen2);
                    assert(all == seen);
                }
            },
        }
    }
    proof {
        let ms = macro_lines_with_offsets(lines_with_offsets(source@, 0, 0));
        assert forall|m: FileOriginMap, i: int|
            #![trigger parsed_map(m, source@, strs_ref(entry_headers@)), provenance@[i]]
            parsed_map(m, source@, strs_ref(entry_headers@)) && 0 <= i < ms.len()
                implies provenance@[i].source_origin == Some(m.spec_origin_at(ms[i].0))
                && location_is(provenance@[i].source_location, m.spec_location_at(ms[i].0)) by {
            assert(macro_entry_ok(macros@[i], provenance@[i], map, ms[i]));
            lemma_same_map(map, m, ms[i].0);
        }
    }
    (macros, provenance)
}

/// Two maps parsed from the same source and entry headers agree at every offset.
proof fn lemma_same_map(a: FileOriginMap, b: FileOriginMap, off: int)
    requires
        a.spec_ranges() == b.spec_ranges(),
        a.spec_entries() == b.spec_entries(),
        a.spec_source() == b.spec_source(),
    ensures
        a.spec_origin_at(off) == b.spec_origin_at(off),
        a.spec_location_at(off) == b.spec_location_at(off),
{
}

/// Macros that matter to configuration or ABI, each with the origin and location of
/// its definition (from the provenance at the same index, when there is one).
pub open spec fn environment_of(macros: Seq<MacroBinding>, prov: Seq<MacroProvenance>) -> Seq<MacroEnvironmentEntry>
    decreases macros.len(),
{
    if macros.len() == 0 {
        seq![]
    } else {
        let i = macros.len() - 1;
        let m = macros[i];
        environment_of(macros.drop_last(), prov) + if m.category == MacroCategory::ConfigurationFlag
            || m.category == MacroCategory::AbiAffecting {
            seq![
                MacroEnvironmentEntry {
                    macro_name: m.name,
                    category: m.category,
                    value: m.value,
                    source_origin: if i < prov.len() {
                        prov[i].source_origin
                    } else {
                        None
                    },
                    source_location: if i < prov.len() {
                        prov[i].source_location
                    } else {
                        None
                    },
                },
            ]
        } else {
            seq![]
        }
    }
}

fn copy_location(l: &Option<SourceLocation>) -> (r: Option<SourceLocation>)
    ensures
        r == *l,
{
    match l {
        Some(x) => Some(SourceLocation { file: x.file.clone(), line: x.line, column: x.column }),
        None => None,
    }
}

fn copy_value(v: &Option<MacroValue>) -> (r: Option<MacroValue>)
    ensures
        r == *v,
{
    match v {
        Some(MacroValue::Integer(i)) => Some(MacroValue::Integer(*i)),
        Some(MacroValue::String(s)) => Some(MacroValue::String(s.clone())),
        None => None,
    }
}

/// The configuration- and ABI-relevant macros with their provenance.
pub fn build_effective_macro_environment(macros: &[MacroBinding], provenance: &[MacroProvenance]) -> (r: Vec<MacroEnvironmentEntry>)
    ensures
        r@ == environment_of(macros@, provenance@),
{
    let mut r: Vec<MacroEnvironmentEntry> = Vec::new();
    let mut i: usize = 0;
    while i < macros.len()
        invariant
            i <= macros@.len(),
            r@ == environment_of(macros@.subrange(0, i as int), provenance@),
        decreases macros@.len() - i,
    {
        let ghost sub = macros@.subrange(0, i + 1);
        assert(sub.drop_last() =~= macros@.subrange(0, i as int));
        let m = &macros[i];
        if m.category == MacroCategory::ConfigurationFlag || m.category == MacroCategory::AbiAffecting {
            let (origin, location) = if i < provenance.len() {
                (provenance[i].source_origin, copy_location(&provenance[i].source_location))
            } else {
                (None, None)
            };
            let e = MacroEnvironmentEntry {
                macro_name: m.name.clone(),
                category: m.category,
                value: copy_value(&m.value),
                source_origin: origin,
                source_location: location,
            };
            let ghost before = r@;
            r.push(e);
            assert(r@ =~= environment_of(sub, provenance@));
        } else {
            assert(r@ =~= environment_of(sub, provenance@));
        }
        i = i + 1;
    }
    assert(macros@.subrange(0, i as int) =~= macros@);
    r
}

/// The provenance of one item: its name, kind and offset, and where the offset lies.
pub open spec fn provenance_for(p: DeclarationProvenance, item: BindingItem, map: FileOriginMap) -> bool {
    &&& opt_str(p.item_name) == item_name(item)
    &&& p.item_kind == Some(item_kind(item))
    &&& p.source_offset == item_offset(item)
    &&& match item_offset(item) {
        Some(off) => p.source_origin == Some(map.spec_origin_at(off as int)) && location_is(
            p.source_location,
            map.spec_location_at(off as int),
        ),
        None => p.source_origin.is_none() && p.source_location.is_none(),
    }
}

fn item_name_exec(item: &BindingItem) -> (r: Option<String>)
    ensures
        opt_str(r) == item_name(*item),
{
    match item {
        BindingItem::Function(f) => Some(f.name.clone()),
        BindingItem::Record(x) => clone_opt(&x.name),
        BindingItem::Enum(e) => clone_opt(&e.name),
        BindingItem::TypeAlias(t) => Some(t.name.clone()),
        BindingItem::Variable(v) => Some(v.name.clone()),
        BindingItem::Unsupported(u) => clone_opt(&u.name),
    }
}

/// Provenance of every item, index-aligned with the items.
pub fn build_item_provenance(items: &[BindingItem], origin_map: &FileOriginMap) -> (r: Vec<DeclarationProvenance>)
    ensures
        r@.len() == items@.len(),
        forall|i: int| 0 <= i < items@.len() ==> provenance_for(#[trigger] r@[i], items@[i], *origin_map),
{
    let mut r: Vec<DeclarationProvenance> = Vec::new();
    let mut i: usize = 0;
    while i < items.len()
        invariant
            i <= items@.len(),
            r@.len() == i,
            forall|k: int| 0 <= k < i ==> provenance_for(#[trigger] r@[k], items@[k], *origin_map),
        decreases items@.len() - i,
    {
        let item = &items[i];
        let offset = item_offset_exec(item);
        let (origin, location) = match offset {
            Some(off) => (Some(origin_map.origin_at(off)), origin_map.location_at(off)),
            None => (None, None),
        };
        r.push(DeclarationProvenance {
            item_name: item_name_exec(item),
            item_kind: Some(crate::ir::kind_of(item)),
            source_offset: offset,
            source_origin: origin,
            source_location: location,
        });
        i = i + 1;
    }
    r
}

// ---------------------------------------------------------------------------
// Probe evidence
// ---------------------------------------------------------------------------

/// Diagnostic kind of a failed probe: layouts that were unavailable (an incomplete
/// type, or `sizeof`/`alignof` refused) are told apart from other failures.
pub open spec fn probe_unavailable_text(stderr: Seq<char>) -> bool {
    ||| contains_s(stderr, "incomplete type"@)
    ||| contains_s(stderr, "incomplete typedef"@)
    ||| contains_s(stderr, "invalid application of \u{2018}sizeof\u{2019}"@)
    ||| contains_s(stderr, "invalid application of \u{2018}alignof\u{2019}"@)
    ||| contains_s(stderr, "invalid application of \u{2018}_Alignof\u{2019}"@)
    ||| contains_s(stderr, "invalid application of \u{2018}__alignof__\u{2019}"@)
}

pub fn classify_probe_diagnostic_kind(error: &LincError) -> (r: DiagnosticKind)
    ensures
        r == (if error matches LincError::ProbeCompile { stderr, .. } && probe_unavailable_text(stderr@) {
            DiagnosticKind::ProbeUnavailable
        } else {
            DiagnosticKind::ProbeFailed
        }),
{
    match error {
        LincError::ProbeCompile { stderr, .. } => {
            let v = chars_of(stderr.as_str());
            if contains(&v, "incomplete type") || contains(&v, "incomplete typedef") || contains(
                &v,
                "invalid application of \u{2018}sizeof\u{2019}",
            ) || contains(&v, "invalid application of \u{2018}alignof\u{2019}") || contains(
                &v,
                "invalid application of \u{2018}_Alignof\u{2019}",
            ) || contains(&v, "invalid application of \u{2018}__alignof__\u{2019}") {
                DiagnosticKind::ProbeUnavailable
            } else {
                DiagnosticKind::ProbeFailed
            }
        },
        _ => DiagnosticKind::ProbeFailed,
    }
}

/// Typedef prefixes with attributes the parser rejects, and their plain forms.
pub open spec fn attribute_patterns() -> Seq<(Seq<char>, Seq<char>)> {
    seq![
        ("typedef struct __attribute__((packed)) "@, "typedef struct "@),
        ("typedef struct __attribute__((__packed__)) "@, "typedef struct "@),
        ("typedef struct __attribute__((aligned(16))) "@, "typedef struct "@),
        ("typedef struct __attribute__((__aligned__(16))) "@, "typedef struct "@),
        ("typedef union __attribute__((packed)) "@, "typedef union "@),
        ("typedef union __attribute__((__packed__)) "@, "typedef union "@),
        ("typedef union __attribute__((aligned(16))) "@, "typedef union "@),
        ("typedef union __attribute__((__aligned__(16))) "@, "typedef union "@),
    ]
}

/// The source with the first `k` patterns replaced where they occur, and whether any did.
pub open spec fn sanitized_upto(source: Seq<char>, k: int) -> (Seq<char>, bool)
    decreases k,
{
    if k <= 0 {
        (source, false)
    } else {
        let (s, changed) = sanitized_upto(source, k - 1);
        let (pat, rep) = attribute_patterns()[k - 1];
        if contains_s(s, pat) {
            (replace_s(s, pat, rep), true)
        } else {
            (s, changed)
        }
    }
}

/// The source with attribute-bearing record typedefs made plain, when it had any.
pub fn sanitize_attribute_bearing_record_typedefs(source: &str) -> (r: Option<String>)
    ensures
        ({
            let (s, changed) = sanitized_upto(source@, 8);
            match r {
                Some(x) => changed && x@ == s,
                None => !changed,
            }
        }),
{
    let pats = [
        ("typedef struct __attribute__((packed)) ", "typedef struct "),
        ("typedef struct __attribute__((__packed__)) ", "typedef struct "),
        ("typedef struct __attribute__((aligned(16))) ", "typedef struct "),
        ("typedef struct __attribute__((__aligned__(16))) ", "typedef struct "),
        ("typedef union __attribute__((packed)) ", "typedef union "),
        ("typedef union __attribute__((__packed__)) ", "typedef union "),
        ("typedef union __attribute__((aligned(16))) ", "typedef union "),
        ("typedef union __attribute__((__aligned__(16))) ", "typedef union "),
    ];
    proof {
        reveal_strlit("typedef struct __attribute__((packed)) ");
        reveal_strlit("typedef struct __attribute__((__packed__)) ");
        reveal_strlit("typedef struct __attribute__((aligned(16))) ");
        reveal_strlit("typedef struct __attribute__((__aligned__(16))) ");
        reveal_strlit("typedef union __attribute__((packed)) ");
        reveal_strlit("typedef union __attribute__((__packed__)) ");
        reveal_strlit("typedef union __attribute__((aligned(16))) ");
        reveal_strlit("typedef union __attribute__((__aligned__(16))) ");
        assert(pats@.len() == 8);
        assert forall|k: int| 0 <= k < 8 implies (#[trigger] pats@[k]).0@ == attribute_patterns()[k].0
            && pats@[k].1@ == attribute_patterns()[k].1 && pats@[k].0@.len() > 0 by {}
    }
    let mut cur = chars_of(source);
    let mut changed = false;
    let mut k: usize = 0;
    while k < 8
        invariant
            k <= 8,
            pats@.len() == 8,
            forall|j: int| 0 <= j < 8 ==> (#[trigger] pats@[j]).0@ == attribute_patterns()[j].0
                && pats@[j].1@ == attribute_patterns()[j].1 && pats@[j].0@.len() > 0,
            (cur@, changed) == sanitized_upto(source@, k as int),
        decreases 8 - k,
    {
        let (pat, rep) = pats[k];
        if contains(&cur, pat) {
            cur = replace_chars(&cur, pat, rep);
            changed = true;
        }
        k = k + 1;
    }
    if changed {
        Some(string_of(&cur))
    } else {
        None
    }
}

// ---------------------------------------------------------------------------
// Typedef canonicalization
// ---------------------------------------------------------------------------

/// Alias names with their target models, in item order.
pub open spec fn alias_pair_models(v: Seq<(String, BindingType)>) -> Seq<(Seq<char>, TypeModel)> {
    v.map_values(|p: (String, BindingType)| (p.0@, type_model(p.1)))
}

/// Target of the last alias with this name (a later alias of the same name wins).
pub open spec fn lookup_alias(pairs: Seq<(Seq<char>, TypeModel)>, name: Seq<char>) -> Option<TypeModel>
    decreases pairs.len(),
{
    if pairs.len() == 0 {
        None
    } else if pairs.last().0 == name {
        Some(pairs.last().1)
    } else {
        lookup_alias(pairs.drop_last(), name)
    }
}

/// Number of aliases whose name is not yet in the chain.
pub open spec fn unseen_names(pairs: Seq<(Seq<char>, TypeModel)>, chain: Seq<Seq<char>>) -> nat
    decreases pairs.len(),
{
    if pairs.len() == 0 {
        0
    } else {
        unseen_names(pairs.drop_last(), chain) + if chain.contains(pairs.last().0) {
            0nat
        } else {
            1nat
        }
    }
}

pub proof fn lemma_unseen_names_mono(pairs: Seq<(Seq<char>, TypeModel)>, chain: Seq<Seq<char>>, more: Seq<Seq<char>>)
    requires
        forall|x: Seq<char>| chain.contains(x) ==> more.contains(x),
    ensures
        unseen_names(pairs, more) <= unseen_names(pairs, chain),
    decreases pairs.len(),
{
    if pairs.len() > 0 {
        lemma_unseen_names_mono(pairs.drop_last(), chain, more);
    }
}

pub proof fn lemma_unseen_names_push(pairs: Seq<(Seq<char>, TypeModel)>, chain: Seq<Seq<char>>, name: Seq<char>)
    requires
        !chain.contains(name),
        lookup_alias(pairs, name) is Some,
    ensures
        unseen_names(pairs, chain.push(name)) < unseen_names(pairs, chain),
    decreases pairs.len(),
{
    let more = chain.push(name);
    assert forall|x: Seq<char>| chain.contains(x) implies more.contains(x) by {
        let k = choose|k: int| 0 <= k < chain.len() && chain[k] == x;
        assert(more[k] == x);
    }
    lemma_unseen_names_mono(pairs.drop_last(), chain, more);
    if pairs.last().0 == name {
        assert(more[chain.len() as int] == name);
    } else {
        lemma_unseen_names_push(pairs.drop_last(), chain, name);
    }
}

/// Canonical form of a type with the chain of aliases resolved on the way: a typedef is
/// replaced by the canonical form of its target (or the target itself), recording its
/// name; pointers, qualified types and arrays are canonicalized inside; function
/// pointers in their return and parameter types. An unknown typedef, or one already on
/// the chain, has no canonical form, and neither has a pointer, qualified type or array
/// around it.
pub open spec fn canon(pairs: Seq<(Seq<char>, TypeModel)>, t: TypeModel, chain: Seq<Seq<char>>) -> (Option<TypeModel>, Seq<Seq<char>>)
    decreases unseen_names(pairs, chain), t, 0int,
{
    match t {
        TypeModel::TypedefRef(name) => match lookup_alias(pairs, name) {
            None => (None, chain),
            Some(resolved) => if chain.contains(name) {
                (None, chain)
            } else {
                proof {
                    lemma_unseen_names_push(pairs, chain, name);
                }
                let (r, c) = canon(pairs, resolved, chain.push(name));
                (
                    Some(
                        match r {
                            Some(x) => x,
                            None => resolved,
                        },
                    ),
                    c,
                )
            },
        },
        TypeModel::Pointer(inner, c, q) => {
            let (r, ch) = canon(pairs, *inner, chain);
            (
                match r {
                    Some(x) => Some(TypeModel::Pointer(Box::new(x), c, q)),
                    None => None,
                },
                ch,
            )
        },
        TypeModel::Qualified(inner, q) => {
            let (r, ch) = canon(pairs, *inner, chain);
            (
                match r {
                    Some(x) => Some(TypeModel::Qualified(Box::new(x), q)),
                    None => None,
                },
                ch,
            )
        },
        TypeModel::Array(inner, n) => {
            let (r, ch) = canon(pairs, *inner, chain);
            (
                match r {
                    Some(x) => Some(TypeModel::Array(Box::new(x), n)),
                    None => None,
                },
                ch,
            )
        },
        TypeModel::FunctionPointer(ret, ps, v) => {
            let (r, c1) = canon(pairs, *ret, chain);
            let ret2 = match r {
                Some(x) => x,
                None => *ret,
            };
            if unseen_names(pairs, c1) <= unseen_names(pairs, chain) {
                let (ps2, c2) = canon_params(pairs, ps, 0, c1);
                (Some(TypeModel::FunctionPointer(Box::new(ret2), ps2, v)), c2)
            } else {
                (None, c1)
            }
        },
        _ => (Some(t), chain),
    }
}

/// Parameters from index `k` on, each canonicalized (or kept when it has no canonical
/// form), with the chain threaded through.
pub open spec fn canon_params(pairs: Seq<(Seq<char>, TypeModel)>, ps: Seq<TypeModel>, k: int, chain: Seq<Seq<char>>) -> (Seq<TypeModel>, Seq<Seq<char>>)
    decreases unseen_names(pairs, chain), ps, ps.len() - k,
{
    if k < 0 || k >= ps.len() {
        (seq![], chain)
    } else {
        let (r, c1) = canon(pairs, ps[k], chain);
        let p2 = match r {
            Some(x) => x,
            None => ps[k],
        };
        if unseen_names(pairs, c1) <= unseen_names(pairs, chain) {
            let (rest, c2) = canon_params(pairs, ps, k + 1, c1);
            (seq![p2] + rest, c2)
        } else {
            (seq![], c1)
        }
    }
}

/// The chain only grows.
pub proof fn lemma_canon_grows(pairs: Seq<(Seq<char>, TypeModel)>, t: TypeModel, chain: Seq<Seq<char>>)
    ensures
        forall|x: Seq<char>| chain.contains(x) ==> canon(pairs, t, chain).1.contains(x),
    decreases unseen_names(pairs, chain), t, 0int,
{
    match t {
        TypeModel::TypedefRef(name) => {
            if lookup_alias(pairs, name) is Some && !chain.contains(name) {
                let resolved = lookup_alias(pairs, name)->0;
                lemma_unseen_names_push(pairs, chain, name);
                let more = chain.push(name);
                assert forall|x: Seq<char>| chain.contains(x) implies more.contains(x) by {
                    let k = choose|k: int| 0 <= k < chain.len() && chain[k] == x;
                    assert(more[k] == x);
                }
                lemma_canon_grows(pairs, resolved, more);
            }
        },
        TypeModel::Pointer(inner, _, _) => {
            lemma_canon_grows(pairs, *inner, chain);
        },
        TypeModel::Qualified(inner, _) => {
            lemma_canon_grows(pairs, *inner, chain);
        },
        TypeModel::Array(inner, _) => {
            lemma_canon_grows(pairs, *inner, chain);
        },
        TypeModel::FunctionPointer(ret, ps, _) => {
            lemma_canon_grows(pairs, *ret, chain);
            let c1 = canon(pairs, *ret, chain).1;
            if unseen_names(pairs, c1) <= unseen_names(pairs, chain) {
                lemma_canon_params_grows(pairs, ps, 0, c1);
            }
        },
        _ => {},
    }
}

pub proof fn lemma_canon_params_grows(pairs: Seq<(Seq<char>, TypeModel)>, ps: Seq<TypeModel>, k: int, chain: Seq<Seq<char>>)
    ensures
        forall|x: Seq<char>| chain.contains(x) ==> canon_params(pairs, ps, k, chain).1.contains(x),
    decreases unseen_names(pairs, chain), ps, ps.len() - k,
{
    if 0 <= k < ps.len() {
        lemma_canon_grows(pairs, ps[k], chain);
        let c1 = canon(pairs, ps[k], chain).1;
        if unseen_names(pairs, c1) <= unseen_names(pairs, chain) {
            lemma_canon_params_grows(pairs, ps, k + 1, c1);
        }
    }
}

pub open spec fn opt_model(o: Option<BindingType>) -> Option<TypeModel> {
    match o {
        Some(t) => Some(type_model(t)),
        None => None,
    }
}

/// Target of the last alias with this name.
fn lookup_alias_exec<'a>(alias_map: &'a Vec<(String, BindingType)>, name: &String) -> (r: Option<&'a BindingType>)
    ensures
        opt_model(match r {
            Some(t) => Some(*t),
            None => None,
        }) == lookup_alias(alias_pair_models(alias_map@), name@),
{
    let ghost pm = alias_pair_models(alias_map@);
    let mut k = alias_map.len();
    assert(pm.subrange(0, k as int) =~= pm);
    while k > 0
        invariant
            k <= alias_map@.len(),
            pm == alias_pair_models(alias_map@),
            lookup_alias(pm, name@) == lookup_alias(pm.subrange(0, k as int), name@),
        decreases k,
    {
        let ghost sub = pm.subrange(0, k as int);
        assert(sub.drop_last() =~= pm.subrange(0, k - 1));
        assert(sub.last() == (alias_map@[k - 1].0@, type_model(alias_map@[k - 1].1)));
        if str_eq(alias_map[k - 1].0.as_str(), name.as_str()) {
            return Some(&alias_map[k - 1].1);
        }
        k = k - 1;
    }
    None
}

fn chain_contains(chain: &Vec<String>, name: &String) -> (r: bool)
    ensures
        r == strs(chain@).contains(name@),
{
    let mut i: usize = 0;
    while i < chain.len()
        invariant
            i <= chain@.len(),
            forall|k: int| 0 <= k < i ==> strs(chain@)[k] != name@,
        decreases chain@.len() - i,
    {
        if str_eq(chain[i].as_str(), name.as_str()) {
            assert(strs(chain@)[i as int] == name@);
            return true;
        }
        i = i + 1;
    }
    false
}

fn copy_type(t: &BindingType) -> (r: BindingType)
    ensures
        type_model(r) == type_model(*t),
{
    let r = t.duplicate();
    proof {
        lemma_same_type_model(*t, r);
    }
    r
}

/// Canonical form of `ty`, appending the aliases resolved on the way to `alias_chain`.
pub fn canonicalize_binding_type(
    ty: &BindingType,
    alias_map: &Vec<(String, BindingType)>,
    alias_chain: &mut Vec<String>,
) -> (r: Option<BindingType>)
    ensures
        opt_model(r) == canon(alias_pair_models(alias_map@), type_model(*ty), strs(old(alias_chain)@)).0,
        strs(final(alias_chain)@) == canon(alias_pair_models(alias_map@), type_model(*ty), strs(old(alias_chain)@)).1,
    decreases unseen_names(alias_pair_models(alias_map@), strs(old(alias_chain)@)), *ty,
{
    let ghost pairs = alias_pair_models(alias_map@);
    let ghost c0 = strs(alias_chain@);
    match ty {
        BindingType::TypedefRef(name) => {
            let resolved = match lookup_alias_exec(alias_map, name) {
                Some(t) => t,
                None => {
                    return None;
                },
            };
            if chain_contains(alias_chain, name) {
                return None;
            }
            proof {
                lemma_unseen_names_push(pairs, c0, name@);
            }
            alias_chain.push(name.clone());
            assert(strs(alias_chain@) =~= c0.push(name@));
            match canonicalize_binding_type(resolved, alias_map, alias_chain) {
                Some(t) => Some(t),
                None => Some(copy_type(resolved)),
            }
        },
        BindingType::Pointer { pointee, const_pointee, qualifiers } => {
            match canonicalize_binding_type(pointee, alias_map, alias_chain) {
                Some(t) => Some(
                    BindingType::Pointer {
                        pointee: Box::new(t),
                        const_pointee: *const_pointee,
                        qualifiers: *qualifiers,
                    },
                ),
                None => None,
            }
        },
        BindingType::Qualified { ty: inner, qualifiers } => {
            match canonicalize_binding_type(inner, alias_map, alias_chain) {
                Some(t) => Some(BindingType::Qualified { ty: Box::new(t), qualifiers: *qualifiers }),
                None => None,
            }
        },
        BindingType::Array(inner, len) => {
            match canonicalize_binding_type(inner, alias_map, alias_chain) {
                Some(t) => Some(BindingType::Array(Box::new(t), *len)),
                None => None,
            }
        },
        BindingType::FunctionPointer { return_type, parameters, variadic } => {
            let resolved_return = match canonicalize_binding_type(return_type, alias_map, alias_chain) {
                Some(t) => t,
                None => copy_type(return_type),
            };
            let ghost c1 = strs(alias_chain@);
            proof {
                lemma_canon_grows(pairs, type_model(**return_type), c0);
                lemma_unseen_names_mono(pairs, c0, c1);
            }
            let ps = canonicalize_parameters(parameters, alias_map, alias_chain);
            Some(BindingType::FunctionPointer {
                return_type: Box::new(resolved_return),
                parameters: ps,
                variadic: *variadic,
            })
        },
        _ => Some(copy_type(ty)),
    }
}

/// Each parameter in canonical form (or as it stands when it has none), threading the
/// alias chain through them in order.
fn canonicalize_parameters(
    parameters: &Vec<BindingType>,
    alias_map: &Vec<(String, BindingType)>,
    alias_chain: &mut Vec<String>,
) -> (r: Vec<BindingType>)
    ensures
        type_models(r@) == canon_params(alias_pair_models(alias_map@), type_models(parameters@), 0, strs(old(alias_chain)@)).0,
        strs(final(alias_chain)@) == canon_params(alias_pair_models(alias_map@), type_models(parameters@), 0, strs(old(alias_chain)@)).1,
    decreases unseen_names(alias_pair_models(alias_map@), strs(old(alias_chain)@)), parameters,
{
    let ghost pairs = alias_pair_models(alias_map@);
    let ghost c1 = strs(alias_chain@);
    let ghost pm = type_models(parameters@);
    proof {
        lemma_type_models_index(parameters@);
    }
    let mut ps: Vec<BindingType> = Vec::new();
    let mut i: usize = 0;
    assert(type_models(ps@) =~= seq![]);
    assert(seq![] + canon_params(pairs, pm, 0, c1).0 =~= canon_params(pairs, pm, 0, c1).0);
    while i < parameters.len()
        invariant
            i <= parameters@.len(),
            pairs == alias_pair_models(alias_map@),
            c1 == strs(old(alias_chain)@),
            pm == type_models(parameters@),
            pm.len() == parameters@.len(),
            forall|k: int| 0 <= k < parameters@.len() ==> pm[k] == type_model(#[trigger] parameters@[k]),
            unseen_names(pairs, strs(alias_chain@)) <= unseen_names(pairs, c1),
            ps@.len() == i,
            canon_params(pairs, pm, 0, c1) == (
                type_models(ps@) + canon_params(pairs, pm, i as int, strs(alias_chain@)).0,
                canon_params(pairs, pm, i as int, strs(alias_chain@)).1,
            ),
        decreases parameters@.len() - i,
    {
        let ghost cur = strs(alias_chain@);
        let ghost before = ps@;
        assert(decreases_to!(parameters => parameters@[i as int]));
        let p = match canonicalize_binding_type(&parameters[i], alias_map, alias_chain) {
            Some(t) => t,
            None => copy_type(&parameters[i]),
        };
        proof {
            lemma_canon_grows(pairs, pm[i as int], cur);
            lemma_unseen_names_mono(pairs, cur, strs(alias_chain@));
        }
        ps.push(p);
        proof {
            lemma_type_models_index(before);
            lemma_type_models_index(ps@);
            assert(ps@ =~= before.push(p));
            assert forall|k: int| 0 <= k < ps@.len() implies type_models(ps@)[k] == type_models(before).push(type_model(p))[k] by {
                if k < before.len() {
                    assert(ps@[k] == before[k]);
                } else {
                    assert(ps@[k] == p);
                }
            }
            assert(type_models(ps@) =~= type_models(before).push(type_model(p)));
            let rest = canon_params(pairs, pm, i + 1, strs(alias_chain@));
            assert(canon_params(pairs, pm, i as int, cur) == (seq![type_model(p)] + rest.0, rest.1));
            assert(type_models(before) + (seq![type_model(p)] + rest.0) =~= type_models(ps@) + rest.0);
        }
        i = i + 1;
    }
    proof {
        assert(canon_params(pairs, pm, i as int, strs(alias_chain@)).0 =~= seq![]);
        assert(type_models(ps@) + seq![] =~= type_models(ps@));
    }
    ps
}

/// `r` is what resolving `target` under `pairs` gives: the chain of aliases passed
/// through and the canonical target, or nothing when no alias was passed through or
/// the target has no canonical form.
pub open spec fn resolution_fits(r: Option<AliasResolution>, pairs: Seq<(Seq<char>, TypeModel)>, target: TypeModel) -> bool {
    let (t, chain) = canon(pairs, target, seq![]);
    match r {
        Some(res) => t is Some && chain.len() > 0 && strs(res.alias_chain@) == chain && Some(type_model(res.terminal_target)) == t,
        None => t is None || chain.len() == 0,
    }
}

/// Name and target of every typedef among `items`, in order.
pub open spec fn item_alias_pairs(items: Seq<BindingItem>) -> Seq<(Seq<char>, TypeModel)>
    decreases items.len(),
{
    if items.len() == 0 {
        seq![]
    } else {
        item_alias_pairs(items.drop_last()) + match items.last() {
            BindingItem::TypeAlias(a) => seq![(a.name@, type_model(a.target))],
            _ => seq![],
        }
    }
}

/// `after` is `before` with its canonical resolution attached, for a typedef; any
/// other item is left as it was.
pub open spec fn alias_attached(before: BindingItem, after: BindingItem, pairs: Seq<(Seq<char>, TypeModel)>) -> bool {
    match before {
        BindingItem::TypeAlias(a) => after matches BindingItem::TypeAlias(b) && b == (TypeAliasBinding {
            canonical_resolution: b.canonical_resolution,
            ..a
        }) && resolution_fits(b.canonical_resolution, pairs, type_model(a.target)),
        _ => after == before,
    }
}

/// The typedef name/target pairs of `items`, in order.
fn alias_map_of(items: &Vec<BindingItem>) -> (r: Vec<(String, BindingType)>)
    ensures
        alias_pair_models(r@) == item_alias_pairs(items@),
{
    let mut r: Vec<(String, BindingType)> = Vec::new();
    let mut i: usize = 0;
    assert(items@.subrange(0, 0) =~= seq![]);
    assert(alias_pair_models(r@) =~= seq![]);
    while i < items.len()
        invariant
            i <= items@.len(),
            alias_pair_models(r@) == item_alias_pairs(items@.subrange(0, i as int)),
        decreases items@.len() - i,
    {
        let ghost before = r@;
        assert(items@.subrange(0, i + 1).drop_last() =~= items@.subrange(0, i as int));
        assert(items@.subrange(0, i + 1).last() == items@[i as int]);
        match &items[i] {
            BindingItem::TypeAlias(a) => {
                let pair = (a.name.clone(), copy_type(&a.target));
                r.push(pair);
                assert(alias_pair_models(r@) =~= alias_pair_models(before).push((a.name@, type_model(a.target))));
            },
            _ => {
                assert(alias_pair_models(r@) =~= alias_pair_models(before) + seq![]);
            },
        }
        i = i + 1;
    }
    assert(items@.subrange(0, items@.len() as int) =~= items@);
    r
}

/// Attaches to every typedef the chain of aliases its target passes through and its
/// canonical target; the other items are left as they are.
pub fn attach_canonical_alias_resolution(items: &mut Vec<BindingItem>)
    ensures
        final(items)@.len() == old(items)@.len(),
        forall|k: int|
            0 <= k < old(items)@.len() ==> alias_attached(
                #[trigger] old(items)@[k],
                final(items)@[k],
                item_alias_pairs(old(items)@),
            ),
{
    let alias_map = alias_map_of(items);
    let ghost pairs = alias_pair_models(alias_map@);
    let ghost old_items = items@;
    let mut i: usize = 0;
    while i < items.len()
        invariant
            items@.len() == old_items.len(),
            pairs == item_alias_pairs(old_items),
            pairs == alias_pair_models(alias_map@),
            forall|k: int| 0 <= k < i ==> alias_attached(#[trigger] old_items[k], items@[k], pairs),
            forall|k: int| i <= k < items@.len() ==> #[trigger] items@[k] == old_items[k],
        decreases items@.len() - i,
    {
        let resolution = match &items[i] {
            BindingItem::TypeAlias(a) => Some(resolve_alias_resolution(&a.target, &alias_map)),
            _ => None,
        };
        let ghost before = items@;
        match resolution {
            Some(r) => {
                match &mut items[i] {
                    BindingItem::TypeAlias(a) => {
                        a.canonical_resolution = r;
                    },
                    _ => {},
                }
            },
            None => {},
        }
        assert forall|k: int| 0 <= k < items@.len() && k != i implies #[trigger] items@[k] == before[k] by {}
        i = i + 1;
    }
}

/// The alias chain and canonical target of a type, when resolving it passes through
/// at least one alias.
pub fn resolve_alias_resolution(ty: &BindingType, alias_map: &Vec<(String, BindingType)>) -> (r: Option<AliasResolution>)
    ensures
        resolution_fits(r, alias_pair_models(alias_map@), type_model(*ty)),
{
    let mut alias_chain: Vec<String> = Vec::new();
    assert(strs(alias_chain@) =~= seq![]);
    let terminal_target = match canonicalize_binding_type(ty, alias_map, &mut alias_chain) {
        Some(t) => t,
        None => {
            return None;
        },
    };
    if alias_chain.len() == 0 {
        None
    } else {
        Some(AliasResolution { alias_chain, terminal_target })
    }
}

// ---------------------------------------------------------------------------
// Probe evidence
// ---------------------------------------------------------------------------

/// The last subject with this name (a later subject of the same name wins).
pub open spec fn last_subject(subjects: Seq<ProbeSubjectReport>, name: Seq<char>) -> Option<ProbeSubjectReport>
    decreases subjects.len(),
{
    if subjects.len() == 0 {
        None
    } else if subjects.last().name@ == name {
        Some(subjects.last())
    } else {
        last_subject(subjects.drop_last(), name)
    }
}

/// The last probed field with this name (a later field of the same name wins).
pub open spec fn last_probed_field(fields: Seq<ProbedFieldLayout>, name: Seq<char>) -> Option<ProbedFieldLayout>
    decreases fields.len(),
{
    if fields.len() == 0 {
        None
    } else if fields.last().name@ == name {
        Some(fields.last())
    } else {
        last_probed_field(fields.drop_last(), name)
    }
}

/// How a record subject is spelled: `struct NAME` or `union NAME`.
pub open spec fn record_subject_name(kind: RecordKind, name: Seq<char>) -> Seq<char> {
    match kind {
        RecordKind::Struct => "struct "@ + name,
        RecordKind::Union => "union "@ + name,
    }
}

/// The completeness of a probed record, spelled as its variant.
pub open spec fn completeness_label(c: Option<RecordCompleteness>) -> Option<Seq<char>> {
    match c {
        Some(RecordCompleteness::Complete) => Some("Complete"@),
        None => None,
    }
}

/// Confidence in an enum's layout: its representation was probed when the probe
/// reported its underlying size or signedness.
pub open spec fn spec_enum_abi_confidence(s: ProbeSubjectReport) -> AbiConfidence {
    if s.enum_underlying_size is Some || s.enum_is_signed is Some {
        AbiConfidence::RepresentationProbed
    } else {
        AbiConfidence::LayoutProbed
    }
}

/// Confidence in a record's layout: partial when a bitfield's offset is missing, field
/// offsets when some offset was probed, representation when completeness is known.
pub open spec fn spec_record_abi_confidence(s: ProbeSubjectReport) -> AbiConfidence {
    if exists|k: int| 0 <= k < s.fields@.len() && (#[trigger] s.fields@[k]).bit_width is Some && s.fields@[k].offset_bytes is None {
        AbiConfidence::PartialBitfieldLayout
    } else if exists|k: int| 0 <= k < s.fields@.len() && (#[trigger] s.fields@[k]).offset_bytes is Some {
        AbiConfidence::FieldOffsetsProbed
    } else if s.record_completeness is Some {
        AbiConfidence::RepresentationProbed
    } else {
        AbiConfidence::LayoutProbed
    }
}

/// A field after probing: a named field the probe measured gets its offset.
pub open spec fn field_probed(f: FieldBinding, g: FieldBinding, probed: Seq<ProbedFieldLayout>) -> bool {
    match f.name {
        Some(n) => match last_probed_field(probed, n@) {
            Some(p) => g == (FieldBinding { layout: Some(FieldLayout { offset_bytes: p.offset_bytes }), ..f }),
            None => g == f,
        },
        None => g == f,
    }
}

/// A record after probing: its representation, confidence and field offsets come
/// from the subject; everything else is kept.
pub open spec fn record_probed(r: RecordBinding, r2: RecordBinding, s: ProbeSubjectReport) -> bool {
    &&& r2.kind == r.kind
    &&& r2.name == r.name
    &&& r2.source_offset == r.source_offset
    &&& r2.representation matches Some(rep) && rep.size == Some(s.layout.size) && rep.align == Some(s.layout.align)
        && opt_str(rep.completeness) == completeness_label(s.record_completeness)
    &&& r2.abi_confidence == Some(spec_record_abi_confidence(s))
    &&& match r.fields {
        None => r2.fields is None,
        Some(fs) => r2.fields matches Some(gs) && gs@.len() == fs@.len() && forall|k: int|
            0 <= k < fs@.len() ==> field_probed(#[trigger] fs@[k], gs@[k], s.fields@),
    }
}

/// An item after the probe evidence of `subjects` was attached to it.
pub open spec fn probe_attached(before: BindingItem, after: BindingItem, subjects: Seq<ProbeSubjectReport>) -> bool {
    match before {
        BindingItem::TypeAlias(a) => match last_subject(subjects, a.name@) {
            Some(_) => after == BindingItem::TypeAlias(TypeAliasBinding { abi_confidence: Some(AbiConfidence::LayoutProbed), ..a }),
            None => after == before,
        },
        BindingItem::Record(r) => match r.name {
            Some(n) => match last_subject(subjects, record_subject_name(r.kind, n@)) {
                Some(s) => after matches BindingItem::Record(r2) && record_probed(r, r2, s),
                None => after == before,
            },
            None => after == before,
        },
        BindingItem::Enum(e) => match e.name {
            Some(n) => match last_subject(subjects, "enum "@ + n@) {
                Some(s) => after == BindingItem::Enum(EnumBinding {
                    representation: Some(EnumRepresentation { underlying_size: s.enum_underlying_size, is_signed: s.enum_is_signed }),
                    abi_confidence: Some(spec_enum_abi_confidence(s)),
                    ..e
                }),
                None => after == before,
            },
            None => after == before,
        },
        _ => after == before,
    }
}

/// The last subject named `name`.
fn find_subject<'a>(subjects: &'a [ProbeSubjectReport], name: &str) -> (r: Option<&'a ProbeSubjectReport>)
    ensures
        match r {
            Some(s) => last_subject(subjects@, name@) == Some(*s),
            None => last_subject(subjects@, name@) is None,
        },
{
    let mut k = subjects.len();
    assert(subjects@.subrange(0, k as int) =~= subjects@);
    while k > 0
        invariant
            k <= subjects@.len(),
            last_subject(subjects@, name@) == last_subject(subjects@.subrange(0, k as int), name@),
        decreases k,
    {
        let ghost sub = subjects@.subrange(0, k as int);
        assert(sub.drop_last() =~= subjects@.subrange(0, k - 1));
        assert(sub.last() == subjects@[k - 1]);
        if str_eq(subjects[k - 1].name.as_str(), name) {
            return Some(&subjects[k - 1]);
        }
        k = k - 1;
    }
    None
}

/// The last probed field named `name`.
fn find_probed_field<'a>(fields: &'a Vec<ProbedFieldLayout>, name: &str) -> (r: Option<&'a ProbedFieldLayout>)
    ensures
        match r {
            Some(f) => last_probed_field(fields@, name@) == Some(*f),
            None => last_probed_field(fields@, name@) is None,
        },
{
    let mut k = fields.len();
    assert(fields@.subrange(0, k as int) =~= fields@);
    while k > 0
        invariant
            k <= fields@.len(),
            last_probed_field(fields@, name@) == last_probed_field(fields@.subrange(0, k as int), name@),
        decreases k,
    {
        let ghost sub = fields@.subrange(0, k as int);
        assert(sub.drop_last() =~= fields@.subrange(0, k - 1));
        assert(sub.last() == fields@[k - 1]);
        if str_eq(fields[k - 1].name.as_str(), name) {
            return Some(&fields[k - 1]);
        }
        k = k - 1;
    }
    None
}

fn alias_abi_confidence(subject: &ProbeSubjectReport) -> (r: AbiConfidence)
    ensures
        r == AbiConfidence::LayoutProbed,
{
    AbiConfidence::LayoutProbed
}

fn enum_abi_confidence(subject: &ProbeSubjectReport) -> (r: AbiConfidence)
    ensures
        r == spec_enum_abi_confidence(*subject),
{
    if subject.enum_underlying_size.is_some() || subject.enum_is_signed.is_some() {
        AbiConfidence::RepresentationProbed
    } else {
        AbiConfidence::LayoutProbed
    }
}

fn record_abi_confidence(subject: &ProbeSubjectReport) -> (r: AbiConfidence)
    ensures
        r == spec_record_abi_confidence(*subject),
{
    let fields = &subject.fields;
    let mut partial = false;
    let mut offsets = false;
    let mut i: usize = 0;
    while i < fields.len()
        invariant
            i <= fields@.len(),
            fields@ == subject.fields@,
            partial <==> exists|k: int| 0 <= k < i && (#[trigger] fields@[k]).bit_width is Some && fields@[k].offset_bytes is None,
            offsets <==> exists|k: int| 0 <= k < i && (#[trigger] fields@[k]).offset_bytes is Some,
        decreases fields@.len() - i,
    {
        if fields[i].bit_width.is_some() && fields[i].offset_bytes.is_none() {
            partial = true;
        }
        if fields[i].offset_bytes.is_some() {
            offsets = true;
        }
        i = i + 1;
    }
    if partial {
        AbiConfidence::PartialBitfieldLayout
    } else if offsets {
        AbiConfidence::FieldOffsetsProbed
    } else if subject.record_completeness.is_some() {
        AbiConfidence::RepresentationProbed
    } else {
        AbiConfidence::LayoutProbed
    }
}

/// Sets the offset of each named field the probe measured.
fn attach_field_offsets(fields: &mut Vec<FieldBinding>, probed: &Vec<ProbedFieldLayout>)
    ensures
        final(fields)@.len() == old(fields)@.len(),
        forall|k: int| 0 <= k < old(fields)@.len() ==> field_probed(#[trigger] old(fields)@[k], final(fields)@[k], probed@),
{
    let ghost before = fields@;
    let mut i: usize = 0;
    while i < fields.len()
        invariant
            i <= fields@.len(),
            fields@.len() == before.len(),
            forall|k: int| 0 <= k < i ==> field_probed(#[trigger] before[k], fields@[k], probed@),
            forall|k: int| i <= k < fields@.len() ==> #[trigger] fields@[k] == before[k],
        decreases fields@.len() - i,
    {
        let ghost cur = fields@;
        let offset = match &fields[i].name {
            Some(n) => match find_probed_field(probed, n.as_str()) {
                Some(p) => Some(p.offset_bytes),
                None => None,
            },
            None => None,
        };
        match offset {
            Some(o) => {
                fields[i].layout = Some(FieldLayout { offset_bytes: o });
            },
            None => {},
        }
        assert forall|k: int| 0 <= k < fields@.len() && k != i implies #[trigger] fields@[k] == cur[k] by {}
        i = i + 1;
    }
}

/// The representation, confidence and field offsets that a record's subject gives it.
fn attach_record_evidence(r: &mut RecordBinding, subjects: &[ProbeSubjectReport])
    ensures
        match old(r).name {
            Some(n) => match last_subject(subjects@, record_subject_name(old(r).kind, n@)) {
                Some(s) => record_probed(*old(r), *final(r), s),
                None => *final(r) == *old(r),
            },
            None => *final(r) == *old(r),
        },
{
    let subject_name = match &r.name {
        Some(n) => match r.kind {
            RecordKind::Struct => join2("struct ", n.as_str()),
            RecordKind::Union => join2("union ", n.as_str()),
        },
        None => {
            return;
        },
    };
    proof {
        reveal_strlit("struct ");
        reveal_strlit("union ");
    }
    let subject = match find_subject(subjects, subject_name.as_str()) {
        Some(s) => s,
        None => {
            return;
        },
    };
    let completeness = match subject.record_completeness {
        Some(RecordCompleteness::Complete) => Some("Complete".to_string()),
        None => None,
    };
    proof {
        reveal_strlit("Complete");
    }
    r.representation = Some(RecordRepresentation {
        size: Some(subject.layout.size),
        align: Some(subject.layout.align),
        completeness,
    });
    r.abi_confidence = Some(record_abi_confidence(subject));
    match &mut r.fields {
        Some(fields) => attach_field_offsets(fields, &subject.fields),
        None => {},
    }
}

/// The representation and confidence that an enum's subject gives it.
fn attach_enum_evidence(e: &mut EnumBinding, subjects: &[ProbeSubjectReport])
    ensures
        match old(e).name {
            Some(n) => match last_subject(subjects@, "enum "@ + n@) {
                Some(s) => *final(e) == (EnumBinding {
                    representation: Some(EnumRepresentation { underlying_size: s.enum_underlying_size, is_signed: s.enum_is_signed }),
                    abi_confidence: Some(spec_enum_abi_confidence(s)),
                    ..*old(e)
                }),
                None => *final(e) == *old(e),
            },
            None => *final(e) == *old(e),
        },
{
    let subject_name = match &e.name {
        Some(n) => join2("enum ", n.as_str()),
        None => {
            return;
        },
    };
    let subject = match find_subject(subjects, subject_name.as_str()) {
        Some(s) => s,
        None => {
            return;
        },
    };
    e.representation = Some(EnumRepresentation {
        underlying_size: subject.enum_underlying_size,
        is_signed: subject.enum_is_signed,
    });
    e.abi_confidence = Some(enum_abi_confidence(subject));
}

/// Attaches probe evidence to the items it speaks of: typedefs by name, records as
/// `struct NAME`/`union NAME`, enums as `enum NAME` (a later subject of the same
/// name wins). Items the probe did not measure are left as they are.
pub fn attach_probe_evidence(items: &mut Vec<BindingItem>, subjects: &[ProbeSubjectReport])
    ensures
        final(items)@.len() == old(items)@.len(),
        forall|k: int| 0 <= k < old(items)@.len() ==> probe_attached(#[trigger] old(items)@[k], final(items)@[k], subjects@),
{
    let ghost old_items = items@;
    let mut i: usize = 0;
    while i < items.len()
        invariant
            items@.len() == old_items.len(),
            forall|k: int| 0 <= k < i ==> probe_attached(#[trigger] old_items[k], items@[k], subjects@),
            forall|k: int| i <= k < items@.len() ==> #[trigger] items@[k] == old_items[k],
        decreases items@.len() - i,
    {
        let ghost before = items@;
        match &mut items[i] {
            BindingItem::TypeAlias(a) => {
                match find_subject(subjects, a.name.as_str()) {
                    Some(subject) => {
                        a.abi_confidence = Some(alias_abi_confidence(subject));
                    },
                    None => {},
                }
            },
            BindingItem::Record(r) => attach_record_evidence(r, subjects),
            BindingItem::Enum(e) => attach_enum_evidence(e, subjects),
            _ => {},
        }
        assert forall|k: int| 0 <= k < items@.len() && k != i implies #[trigger] items@[k] == before[k] by {}
        i = i + 1;
    }
}

/// Borrowed slices of each string, in order.
fn str_refs(v: &Vec<String>) -> (r: Vec<&str>)
    ensures
        strs_ref(r@) == strs(v@),
{
    let mut r: Vec<&str> = Vec::new();
    let mut i: usize = 0;
    while i < v.len()
        invariant
            i <= v@.len(),
            r@.len() == i,
            forall|k: int| 0 <= k < i ==> (#[trigger] r@[k])@ == v@[k]@,
        decreases v@.len() - i,
    {
        r.push(v[i].as_str());
        i = i + 1;
    }
    assert(strs_ref(r@) =~= strs(v@));
    r
}

/// Appends one string holding `s`.
fn push_str(v: &mut Vec<String>, s: &str)
    ensures
        appended(old(v)@, final(v)@, s@),
{
    let ghost before = v@;
    v.push(s.to_owned());
    assert(v@.drop_last() =~= before);
}

/// Appends the defines of `items`.
fn append_defines(v: &mut Vec<(String, Option<String>)>, items: &[(&str, Option<String>)])
    ensures
        final(v)@.len() == old(v)@.len() + items@.len(),
        final(v)@.subrange(0, old(v)@.len() as int) == old(v)@,
        forall|i: int|
            0 <= i < items@.len() ==> (#[trigger] final(v)@[old(v)@.len() + i]).0@ == items@[i].0@
                && final(v)@[old(v)@.len() + i].1 == items@[i].1,
{
    let ghost old_v = v@;
    let mut i: usize = 0;
    while i < items.len()
        invariant
            i <= items@.len(),
            v@.len() == old_v.len() + i,
            v@.subrange(0, old_v.len() as int) == old_v,
            forall|k: int|
                0 <= k < i ==> (#[trigger] v@[old_v.len() + k]).0@ == items@[k].0@ && v@[old_v.len()
                    + k].1 == items@[k].1,
        decreases items@.len() - i,
    {
        let (name, value) = &items[i];
        let ghost before = v@;
        v.push(((*name).to_owned(), clone_opt(value)));
        proof {
            assert(v@.subrange(0, old_v.len() as int) =~= before.subrange(0, old_v.len() as int));
            assert forall|k: int| 0 <= k < i + 1 implies (#[trigger] v@[old_v.len() + k]).0@ == items@[k].0@
                && v@[old_v.len() + k].1 == items@[k].1 by {
                if k < i {
                    assert(v@[old_v.len() + k] == before[old_v.len() + k]);
                }
            }
        }
        i = i + 1;
    }
}

/// Appends the strings of `items` to `v`.
fn append_all(v: &mut Vec<String>, items: &[&str])
    ensures
        extended(old(v)@, final(v)@, strs_ref(items@)),
{
    let ghost old_v = v@;
    let mut i: usize = 0;
    while i < items.len()
        invariant
            i <= items@.len(),
            v@.len() == old_v.len() + i,
            v@.subrange(0, old_v.len() as int) == old_v,
            forall|k: int| 0 <= k < i ==> (#[trigger] v@[old_v.len() + k])@ == strs_ref(items@)[k],
        decreases items@.len() - i,
    {
        let ghost before = v@;
        v.push(items[i].to_owned());
        proof {
            assert(v@.subrange(0, old_v.len() as int) =~= before.subrange(0, old_v.len() as int));
            assert forall|k: int| 0 <= k < i + 1 implies (#[trigger] v@[old_v.len() + k])@ == strs_ref(items@)[k] by {
                if k < i {
                    assert(v@[old_v.len() + k] == before[old_v.len() + k]);
                }
            }
        }
        i = i + 1;
    }
}

} // verus!
