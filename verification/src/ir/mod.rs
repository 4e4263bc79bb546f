//! Intermediate representation for the LINC analysis pipeline.
//!
//! - [`link`]: native link surface types (libraries, artifacts, frameworks)
//! - [`types`]: declaration and type representation types
//! - [`macros`]: preprocessor macro types and classification
//!
//! The top-level [`BindingPackage`] ties everything together as the primary
//! machine-readable output.
pub mod link;
pub mod macros;
pub mod types;

pub use link::{
    BindingLinkSurface, LinkArtifact, LinkArtifactKind, LinkFramework, LinkInput, LinkLibrary,
    LinkLibraryKind, LinkRequirementSource, LinkResolutionMode, NativeSurfaceKind,
};
pub use macros::{
    MacroBinding, MacroCategory, MacroEnvironmentEntry, MacroForm, MacroKind, MacroProvenance,
    MacroValue,
};
pub use types::{
    AbiConfidence, AliasResolution, BindingItem, BindingItemKind, BindingType, CallingConvention,
    EnumBinding, EnumRepresentation, EnumVariant, FieldBinding, FieldLayout, FunctionBinding,
    ParameterBinding, RecordBinding, RecordKind, RecordRepresentation, TypeAliasBinding,
    TypeLayout, TypeQualifiers, UnsupportedItem, VariableBinding,
};

use vstd::prelude::*;

use crate::diagnostics::{kind_name, lemma_kind_name_injective, Diagnostic, DiagnosticKind};
use crate::line_markers::{spec_accepts, FileOriginMap, OriginFilter, SourceLocation, SourceOrigin};
use crate::text::opt_str;
use types::{item_kind, item_name, item_offset, item_offset_exec};

verus! {

pub const SCHEMA_VERSION: u32 = 1;

/// Version of this library, recorded in the packages it produces.
pub const LINC_VERSION: &'static str = "0.1.0";

/// Compiler/target identity captured alongside a produced package or probe report.
///
/// All fields are optional evidence and may be absent.
#[derive(Debug, Clone, PartialEq, Eq)]
pub struct BindingTarget {
    pub target_triple: Option<String>,
    pub compiler_command: Option<String>,
    pub compiler_version: Option<String>,
    pub flavor: Option<String>,
}

impl Default for BindingTarget {
    fn default() -> (r: Self)
        ensures
            r.target_triple.is_none() && r.compiler_command.is_none()
                && r.compiler_version.is_none() && r.flavor.is_none(),
    {
        BindingTarget {
            target_triple: None,
            compiler_command: None,
            compiler_version: None,
            flavor: None,
        }
    }
}

/// One preprocessor define; `value == None` represents flag-style defines such as `-DDEBUG`.
#[derive(Debug, Clone, PartialEq, Eq)]
pub struct BindingDefine {
    pub name: String,
    pub value: Option<String>,
}

/// Input provenance for how a package was produced, in declaration order.
#[derive(Debug, Clone, PartialEq, Eq)]
pub struct BindingInputs {
    pub entry_headers: Vec<String>,
    pub include_dirs: Vec<String>,
    pub defines: Vec<BindingDefine>,
}

impl Default for BindingInputs {
    fn default() -> (r: Self)
        ensures
            r.entry_headers@.len() == 0 && r.include_dirs@.len() == 0 && r.defines@.len() == 0,
    {
        BindingInputs { entry_headers: Vec::new(), include_dirs: Vec::new(), defines: Vec::new() }
    }
}

impl Default for BindingLinkSurface {
    fn default() -> (r: Self)
        ensures
            link_surface_is_empty(r),
    {
        BindingLinkSurface {
            preferred_mode: LinkResolutionMode::Default,
            native_surface_kind: NativeSurfaceKind::HeaderOnly,
            platform_constraints: Vec::new(),
            include_paths: Vec::new(),
            framework_paths: Vec::new(),
            library_paths: Vec::new(),
            libraries: Vec::new(),
            frameworks: Vec::new(),
            artifacts: Vec::new(),
            ordered_inputs: Vec::new(),
        }
    }
}

/// The default link surface: default mode, header-only, no entries.
pub open spec fn link_surface_is_empty(l: BindingLinkSurface) -> bool {
    &&& l.preferred_mode == LinkResolutionMode::Default
    &&& l.native_surface_kind == NativeSurfaceKind::HeaderOnly
    &&& l.platform_constraints@.len() == 0
    &&& l.include_paths@.len() == 0
    &&& l.framework_paths@.len() == 0
    &&& l.library_paths@.len() == 0
    &&& l.libraries@.len() == 0
    &&& l.frameworks@.len() == 0
    &&& l.artifacts@.len() == 0
    &&& l.ordered_inputs@.len() == 0
}

/// A default link surface, except possibly for its libraries.
pub open spec fn link_surface_empty_but_libraries(l: BindingLinkSurface) -> bool {
    &&& l.preferred_mode == LinkResolutionMode::Default
    &&& l.native_surface_kind == NativeSurfaceKind::HeaderOnly
    &&& l.platform_constraints@.len() == 0
    &&& l.include_paths@.len() == 0
    &&& l.framework_paths@.len() == 0
    &&& l.library_paths@.len() == 0
    &&& l.frameworks@.len() == 0
    &&& l.artifacts@.len() == 0
    &&& l.ordered_inputs@.len() == 0
}

/// Per-declaration source provenance, index-aligned with `BindingPackage::items`.
#[derive(Debug, Clone, PartialEq, Eq, Default)]
pub struct DeclarationProvenance {
    pub item_name: Option<String>,
    pub item_kind: Option<BindingItemKind>,
    pub source_offset: Option<usize>,
    pub source_origin: Option<SourceOrigin>,
    pub source_location: Option<SourceLocation>,
}

/// Primary machine-readable package emitted by LINC.
#[derive(Debug, Clone, PartialEq)]
pub struct BindingPackage {
    pub schema_version: u32,
    pub linc_version: String,
    pub target: BindingTarget,
    pub inputs: BindingInputs,
    pub macros: Vec<MacroBinding>,
    pub layouts: Vec<TypeLayout>,
    pub link: BindingLinkSurface,
    pub provenance: Vec<DeclarationProvenance>,
    pub macro_provenance: Vec<MacroProvenance>,
    pub effective_macro_environment: Vec<MacroEnvironmentEntry>,
    pub source_path: Option<String>,
    pub items: Vec<BindingItem>,
    pub diagnostics: Vec<Diagnostic>,
}

/// `s` is the name of some diagnostic kind.
pub open spec fn is_kind_name(s: Seq<char>) -> bool {
    exists|k: DiagnosticKind| #[trigger] names_kind(s, k)
}

/// `s` is the name of the kind `k`.
pub open spec fn names_kind(s: Seq<char>, k: DiagnosticKind) -> bool {
    kind_name(k) == s
}

/// The metadata of a new package: current schema and library version, and no target,
/// inputs, macros, layouts, link surface or provenance.
pub open spec fn has_new_metadata(p: BindingPackage) -> bool {
    &&& p.schema_version == SCHEMA_VERSION
    &&& p.linc_version@ == LINC_VERSION@
    &&& p.target.target_triple.is_none() && p.target.compiler_command.is_none()
    &&& p.target.compiler_version.is_none() && p.target.flavor.is_none()
    &&& p.inputs.entry_headers@.len() == 0 && p.inputs.include_dirs@.len() == 0
    &&& p.inputs.defines@.len() == 0
    &&& p.macros@.len() == 0
    &&& p.layouts@.len() == 0
    &&& link_surface_is_empty(p.link)
    &&& p.provenance@.len() == 0
    &&& p.macro_provenance@.len() == 0
    &&& p.effective_macro_environment@.len() == 0
}

/// A new package: new metadata, no source path, declarations or diagnostics.
pub open spec fn is_new_package(p: BindingPackage) -> bool {
    &&& has_new_metadata(p)
    &&& p.source_path.is_none()
    &&& p.items@.len() == 0
    &&& p.diagnostics@.len() == 0
}

/// Items of one kind, in package order.
pub open spec fn items_of_kind(items: Seq<BindingItem>, k: BindingItemKind) -> Seq<BindingItem> {
    items.filter(kind_pred(k))
}

pub open spec fn kind_pred(k: BindingItemKind) -> spec_fn(BindingItem) -> bool {
    |it: BindingItem| item_kind(it) == k
}

/// Index of the first item of kind `k` named `name`.
pub open spec fn first_named(items: Seq<BindingItem>, k: BindingItemKind, name: Seq<char>) -> Option<
    int,
>
    decreases items.len(),
{
    if items.len() == 0 {
        None
    } else {
        match first_named(items.drop_last(), k, name) {
            Some(i) => Some(i),
            None => if item_kind(items.last()) == k && item_name(items.last()) == Some(name) {
                Some(items.len() - 1)
            } else {
                None
            },
        }
    }
}

/// Number of diagnostics of the given kind.
pub open spec fn count_kind(d: Seq<Diagnostic>, k: DiagnosticKind) -> nat
    decreases d.len(),
{
    if d.len() == 0 {
        0
    } else {
        count_kind(d.drop_last(), k) + if d.last().kind == k {
            1nat
        } else {
            0nat
        }
    }
}

/// Whether `filter_by_origin` keeps an item.
pub open spec fn keeps(map: FileOriginMap, filter: OriginFilter, item: BindingItem) -> bool {
    match item_offset(item) {
        Some(off) => spec_accepts(filter, map.spec_origin_at(off as int)),
        None => true,
    }
}

pub open spec fn keep_pred(map: FileOriginMap, filter: OriginFilter) -> spec_fn(BindingItem) -> bool {
    |it: BindingItem| keeps(map, filter, it)
}

/// Provenance entries of kept items, for those items that had one.
pub open spec fn kept_provenance(
    items: Seq<BindingItem>,
    prov: Seq<DeclarationProvenance>,
    map: FileOriginMap,
    filter: OriginFilter,
) -> Seq<DeclarationProvenance>
    decreases items.len(),
{
    if items.len() == 0 {
        Seq::empty()
    } else {
        let i = items.len() - 1;
        kept_provenance(items.drop_last(), prov, map, filter) + if keeps(map, filter, items[i])
            && i < prov.len() {
            seq![prov[i]]
        } else {
            Seq::empty()
        }
    }
}

/// A sequence whose elements all pass `p` is its own filter.
pub proof fn lemma_filter_keeps_all<A>(s: Seq<A>, p: spec_fn(A) -> bool)
    requires
        forall|i: int| 0 <= i < s.len() ==> p(#[trigger] s[i]),
    ensures
        s.filter(p) == s,
    decreases s.len(),
{
    reveal(Seq::filter);
    if s.len() > 0 {
        lemma_filter_keeps_all(s.drop_last(), p);
        assert(p(s[s.len() - 1]));
        assert(s.drop_last().push(s.last()) =~= s);
    }
}

proof fn lemma_kept_provenance_len(
    items: Seq<BindingItem>,
    prov: Seq<DeclarationProvenance>,
    map: FileOriginMap,
    filter: OriginFilter,
)
    ensures
        kept_provenance(items, prov, map, filter).len() <= items.filter(keep_pred(map, filter)).len(),
    decreases items.len(),
{
    reveal(Seq::filter);
    if items.len() > 0 {
        lemma_kept_provenance_len(items.drop_last(), prov, map, filter);
    }
}

proof fn lemma_kept_provenance_all(
    items: Seq<BindingItem>,
    prov: Seq<DeclarationProvenance>,
    map: FileOriginMap,
    filter: OriginFilter,
)
    requires
        forall|i: int| 0 <= i < items.len() ==> keeps(map, filter, #[trigger] items[i]),
    ensures
        kept_provenance(items, prov, map, filter) == prov.take(
            if items.len() < prov.len() {
                items.len() as int
            } else {
                prov.len() as int
            },
        ),
    decreases items.len(),
{
    if items.len() > 0 {
        let n = items.len() - 1;
        assert forall|i: int| 0 <= i < items.drop_last().len() implies keeps(
            map,
            filter,
            #[trigger] items.drop_last()[i],
        ) by {
            assert(items.drop_last()[i] == items[i]);
        }
        lemma_kept_provenance_all(items.drop_last(), prov, map, filter);
        assert(keeps(map, filter, items[n]));
        if n < prov.len() {
            assert(prov.take(n) + seq![prov[n]] =~= prov.take(n + 1));
        } else {
            assert(prov.take(prov.len() as int) + Seq::<DeclarationProvenance>::empty() =~= prov.take(
                prov.len() as int,
            ));
        }
    } else {
        assert(prov.take(0) =~= Seq::<DeclarationProvenance>::empty());
    }
}

/// Filtering by origin is idempotent: a second pass with the same map and filter keeps
/// every item that the first pass kept, and every provenance entry with it.
pub proof fn lemma_origin_filter_idempotent(
    items: Seq<BindingItem>,
    prov: Seq<DeclarationProvenance>,
    map: FileOriginMap,
    filter: OriginFilter,
)
    ensures
        ({
            let kept = items.filter(keep_pred(map, filter));
            let kept_prov = kept_provenance(items, prov, map, filter);
            &&& kept.filter(keep_pred(map, filter)) == kept
            &&& kept_provenance(kept, kept_prov, map, filter) == kept_prov
        }),
{
    let kept = items.filter(keep_pred(map, filter));
    let kept_prov = kept_provenance(items, prov, map, filter);
    assert forall|i: int| 0 <= i < kept.len() implies keeps(map, filter, #[trigger] kept[i]) by {
        items.lemma_filter_pred(keep_pred(map, filter), i);
    }
    assert forall|i: int| 0 <= i < kept.len() implies keep_pred(map, filter)(#[trigger] kept[i]) by {
        assert(keeps(map, filter, kept[i]));
    }
    lemma_filter_keeps_all(kept, keep_pred(map, filter));
    lemma_kept_provenance_len(items, prov, map, filter);
    lemma_kept_provenance_all(kept, kept_prov, map, filter);
    assert(kept_prov.take(kept_prov.len() as int) =~= kept_prov);
}

proof fn lemma_first_named_some(items: Seq<BindingItem>, k: BindingItemKind, name: Seq<char>)
    ensures
        first_named(items, k, name) matches Some(i) ==> 0 <= i < items.len() && item_kind(items[i])
            == k && item_name(items[i]) == Some(name),
    decreases items.len(),
{
    if items.len() > 0 {
        lemma_first_named_some(items.drop_last(), k, name);
    }
}

impl Default for BindingPackage {
    fn default() -> (r: Self)
        ensures
            is_new_package(r),
    {
        Self::new()
    }
}

impl BindingPackage {
    pub fn new() -> (r: Self)
        ensures
            is_new_package(r),
    {
        BindingPackage {
            schema_version: SCHEMA_VERSION,
            linc_version: LINC_VERSION.to_owned(),
            target: BindingTarget::default(),
            inputs: BindingInputs::default(),
            macros: Vec::new(),
            layouts: Vec::new(),
            link: BindingLinkSurface::default(),
            provenance: Vec::new(),
            macro_provenance: Vec::new(),
            effective_macro_environment: Vec::new(),
            source_path: None,
            items: Vec::new(),
            diagnostics: Vec::new(),
        }
    }

    /// Keep only the items whose origin the filter accepts (items without an offset are
    /// kept), together with the provenance entries of the kept items.
    pub fn filter_by_origin(&mut self, origin_map: &FileOriginMap, filter: &OriginFilter)
        ensures
            final(self).items@ == old(self).items@.filter(keep_pred(*origin_map, *filter)),
            final(self).provenance@ == kept_provenance(
                old(self).items@,
                old(self).provenance@,
                *origin_map,
                *filter,
            ),
            final(self).schema_version == old(self).schema_version,
            final(self).linc_version == old(self).linc_version,
            final(self).target == old(self).target,
            final(self).inputs == old(self).inputs,
            final(self).macros == old(self).macros,
            final(self).layouts == old(self).layouts,
            final(self).link == old(self).link,
            final(self).macro_provenance == old(self).macro_provenance,
            final(self).effective_macro_environment == old(self).effective_macro_environment,
            final(self).source_path == old(self).source_path,
            final(self).diagnostics == old(self).diagnostics,
    {
        let ghost items0 = self.items@;
        let ghost prov0 = self.provenance@;
        let mut items: Vec<BindingItem> = Vec::new();
        let mut prov: Vec<DeclarationProvenance> = Vec::new();
        std::mem::swap(&mut items, &mut self.items);
        std::mem::swap(&mut prov, &mut self.provenance);
        let n = items.len();
        let mut kept_items: Vec<BindingItem> = Vec::new();
        let mut kept_prov: Vec<DeclarationProvenance> = Vec::new();
        let mut index: usize = 0;
        while index < n
            invariant
                n == items0.len(),
                index <= n,
                items@ == items0.subrange(index as int, n as int),
                prov@ == if index <= prov0.len() {
                    prov0.subrange(index as int, prov0.len() as int)
                } else {
                    Seq::<DeclarationProvenance>::empty()
                },
                kept_items@ == items0.subrange(0, index as int).filter(
                    keep_pred(*origin_map, *filter),
                ),
                kept_prov@ == kept_provenance(
                    items0.subrange(0, index as int),
                    prov0,
                    *origin_map,
                    *filter,
                ),
            decreases n - index,
        {
            let item = items.remove(0);
            let p = if prov.len() > 0 {
                Some(prov.remove(0))
            } else {
                None
            };
            let keep = match item_offset_exec(&item) {
                Some(off) => filter.accepts(&origin_map.origin_at(off)),
                None => true,
            };
            let ghost sub = items0.subrange(0, index + 1);
            assert(sub.drop_last() =~= items0.subrange(0, index as int));
            assert(sub.last() == item);
            reveal_with_fuel(Seq::filter, 1);
            if keep {
                kept_items.push(item);
                match p {
                    Some(p) => {
                        kept_prov.push(p);
                    },
                    None => {},
                }
            }
            assert(kept_items@ =~= sub.filter(keep_pred(*origin_map, *filter)));
            assert(kept_prov@ =~= kept_provenance(sub, prov0, *origin_map, *filter));
            index = index + 1;
            assert(items@ =~= items0.subrange(index as int, n as int));
            assert(prov@ =~= if index <= prov0.len() {
                prov0.subrange(index as int, prov0.len() as int)
            } else {
                Seq::<DeclarationProvenance>::empty()
            });
        }
        assert(items0.subrange(0, n as int) =~= items0);
        self.items = kept_items;
        self.provenance = kept_prov;
    }

    /// How many diagnostics there are of each kind, by the kind's name, in order of
    /// first appearance.
    pub fn diagnostics_count_by_kind(&self) -> (r: Vec<(String, usize)>)
        ensures
            forall|i: int| 0 <= i < r@.len() ==> #[trigger] is_kind_name(r@[i].0@),
            forall|i: int, k: DiagnosticKind|
                0 <= i < r@.len() && (#[trigger] r@[i]).0@ == #[trigger] kind_name(k) ==> r@[i].1 == count_kind(self.diagnostics@, k),
            forall|i: int, j: int| 0 <= i < j < r@.len() ==> r@[i].0@ != r@[j].0@,
            forall|k: DiagnosticKind| (count_kind(self.diagnostics@, k) > 0) <==> exists|i: int|
                0 <= i < r@.len() && #[trigger] names_kind(r@[i].0@, k),
    {
        let counts = self.diagnostic_kind_counts();
        let mut r: Vec<(String, usize)> = Vec::new();
        let mut i: usize = 0;
        while i < counts.len()
            invariant
                i <= counts@.len(),
                r@.len() == i,
                forall|a: int| 0 <= a < i ==> (#[trigger] r@[a]).0@ == kind_name(counts@[a].0) && r@[a].1 == counts@[a].1,
            decreases counts@.len() - i,
        {
            r.push((counts[i].0.name(), counts[i].1));
            i = i + 1;
        }
        proof {
            assert forall|a: int| 0 <= a < r@.len() implies #[trigger] is_kind_name(r@[a].0@) by {
                assert(names_kind(r@[a].0@, counts@[a].0));
            }
            assert forall|a: int, k: DiagnosticKind|
                0 <= a < r@.len() && (#[trigger] r@[a]).0@ == #[trigger] kind_name(k) implies r@[a].1 == count_kind(self.diagnostics@, k) by {
                lemma_kind_name_injective(counts@[a].0, k);
            }
            assert forall|a: int, b: int| 0 <= a < b < r@.len() implies r@[a].0@ != r@[b].0@ by {
                lemma_kind_name_injective(counts@[a].0, counts@[b].0);
            }
            assert forall|k: DiagnosticKind| (count_kind(self.diagnostics@, k) > 0) <==> exists|a: int|
                0 <= a < r@.len() && #[trigger] names_kind(r@[a].0@, k) by {
                if count_kind(self.diagnostics@, k) > 0 {
                    let a = choose|a: int| 0 <= a < counts@.len() && counts@[a].0 == k;
                    assert(names_kind(r@[a].0@, k));
                }
                if exists|a: int| 0 <= a < r@.len() && #[trigger] names_kind(r@[a].0@, k) {
                    let a = choose|a: int| 0 <= a < r@.len() && #[trigger] names_kind(r@[a].0@, k);
                    lemma_kind_name_injective(counts@[a].0, k);
                }
            }
        }
        r
    }

    /// How many diagnostics there are of each kind, in order of first appearance.
    #[verifier::spinoff_prover]
    fn diagnostic_kind_counts(&self) -> (r: Vec<(DiagnosticKind, usize)>)
        ensures
            forall|i: int| 0 <= i < r@.len() ==> r@[i].1 == count_kind(self.diagnostics@, r@[i].0),
            forall|i: int, j: int| 0 <= i < j < r@.len() ==> r@[i].0 != r@[j].0,
            forall|k: DiagnosticKind| (count_kind(self.diagnostics@, k) > 0) <==> exists|i: int|
                0 <= i < r@.len() && r@[i].0 == k,
    {
        let mut r: Vec<(DiagnosticKind, usize)> = Vec::new();
        let mut i: usize = 0;
        while i < self.diagnostics.len()
            invariant
                i <= self.diagnostics@.len(),
                forall|a: int|
                    0 <= a < r@.len() ==> r@[a].1 == count_kind(
                        self.diagnostics@.subrange(0, i as int),
                        r@[a].0,
                    ),
                forall|a: int, b: int| 0 <= a < b < r@.len() ==> r@[a].0 != r@[b].0,
                forall|k: DiagnosticKind|
                    (count_kind(self.diagnostics@.subrange(0, i as int), k) > 0) <==> exists|a: int|
                        0 <= a < r@.len() && r@[a].0 == k,
                forall|a: int| 0 <= a < r@.len() ==> r@[a].1 <= i,
            decreases self.diagnostics@.len() - i,
        {
            let kind = self.diagnostics[i].kind;
            let ghost sub = self.diagnostics@.subrange(0, i + 1);
            assert(sub.drop_last() =~= self.diagnostics@.subrange(0, i as int));
            let mut j: usize = 0;
            let mut pos: Option<usize> = None;
            while j < r.len() && pos.is_none()
                invariant
                    j <= r@.len(),
                    pos matches Some(p) ==> p < r@.len() && r@[p as int].0 == kind,
                    pos is None ==> forall|a: int| 0 <= a < j ==> r@[a].0 != kind,
                decreases r@.len() - j,
            {
                if r[j].0 == kind {
                    pos = Some(j);
                }
                j = j + 1;
            }
            let ghost old_r = r@;
            match pos {
                Some(p) => {
                    let c = r[p].1;
                    r.set(p, (kind, c + 1));
                },
                None => {
                    r.push((kind, 1));
                },
            }
            assert forall|a: int| 0 <= a < r@.len() implies r@[a].1 == count_kind(sub, r@[a].0) by {
                if a < old_r.len() {
                    assert(r@[a].0 == old_r[a].0);
                }
            }
            assert forall|k: DiagnosticKind| (count_kind(sub, k) > 0) <==> exists|a: int|
                0 <= a < r@.len() && r@[a].0 == k by {
                assert(sub.last().kind == kind);
                assert(count_kind(sub, k) == count_kind(sub.drop_last(), k) + if sub.last().kind
                    == k {
                    1nat
                } else {
                    0nat
                });
                if count_kind(sub, k) > 0 {
                    if k != kind {
                        let a = choose|a: int| 0 <= a < old_r.len() && old_r[a].0 == k;
                        assert(r@[a].0 == k);
                    } else {
                        match pos {
                            Some(p) => assert(r@[p as int].0 == k),
                            None => assert(r@[old_r.len() as int].0 == k),
                        }
                    }
                }
                if exists|a: int| 0 <= a < r@.len() && r@[a].0 == k {
                    let a = choose|a: int| 0 <= a < r@.len() && r@[a].0 == k;
                    if a < old_r.len() {
                        assert(old_r[a].0 == k);
                    }
                }
            }
            i = i + 1;
        }
        assert(self.diagnostics@.subrange(0, i as int) =~= self.diagnostics@);
        r
    }

    pub fn is_empty(&self) -> (r: bool)
        ensures
            r == (self.items@.len() == 0 && self.diagnostics@.len() == 0 && self.macros@.len()
                == 0 && self.layouts@.len() == 0),
    {
        self.items.len() == 0 && self.diagnostics.len() == 0 && self.macros.len() == 0
            && self.layouts.len() == 0
    }

    pub fn has_diagnostics(&self) -> (r: bool)
        ensures
            r == (self.diagnostics@.len() > 0),
    {
        self.diagnostics.len() > 0
    }

    fn count_diagnostics(&self, kind: DiagnosticKind) -> (r: usize)
        ensures
            r == count_kind(self.diagnostics@, kind),
    {
        let mut n: usize = 0;
        let mut i: usize = 0;
        while i < self.diagnostics.len()
            invariant
                i <= self.diagnostics@.len(),
                n == count_kind(self.diagnostics@.subrange(0, i as int), kind),
                n <= i,
            decreases self.diagnostics@.len() - i,
        {
            assert(self.diagnostics@.subrange(0, i + 1).drop_last() =~= self.diagnostics@.subrange(
                0,
                i as int,
            ));
            if self.diagnostics[i].kind == kind {
                n = n + 1;
            }
            i = i + 1;
        }
        assert(self.diagnostics@.subrange(0, i as int) =~= self.diagnostics@);
        n
    }

    pub fn probe_unavailable_count(&self) -> (r: usize)
        ensures
            r == count_kind(self.diagnostics@, DiagnosticKind::ProbeUnavailable),
    {
        self.count_diagnostics(DiagnosticKind::ProbeUnavailable)
    }

    pub fn probe_failure_count(&self) -> (r: usize)
        ensures
            r == count_kind(self.diagnostics@, DiagnosticKind::ProbeFailed),
    {
        self.count_diagnostics(DiagnosticKind::ProbeFailed)
    }

    pub fn has_probe_unavailable_diagnostics(&self) -> (r: bool)
        ensures
            r == (count_kind(self.diagnostics@, DiagnosticKind::ProbeUnavailable) > 0),
    {
        self.probe_unavailable_count() > 0
    }

    pub fn item_provenance(&self, index: usize) -> (r: Option<&DeclarationProvenance>)
        ensures
            index < self.provenance@.len() ==> r == Some(&self.provenance@[index as int]),
            index >= self.provenance@.len() ==> r.is_none(),
    {
        if index < self.provenance.len() {
            Some(&self.provenance[index])
        } else {
            None
        }
    }

    pub fn item_count(&self) -> (r: usize)
        ensures
            r == self.items@.len(),
    {
        self.items.len()
    }

    pub fn functions(&self) -> (r: Vec<&FunctionBinding>)
        ensures
            r@.len() == items_of_kind(self.items@, BindingItemKind::Function).len(),
            forall|i: int|
                0 <= i < r@.len() ==> items_of_kind(self.items@, BindingItemKind::Function)[i]
                    == BindingItem::Function(*r@[i]),
    {
        let mut r: Vec<&FunctionBinding> = Vec::new();
        let mut i: usize = 0;
        while i < self.items.len()
            invariant
                i <= self.items@.len(),
                r@.len() == items_of_kind(self.items@.subrange(0, i as int), BindingItemKind::Function).len(),
                forall|j: int|
                    0 <= j < r@.len() ==> items_of_kind(
                        self.items@.subrange(0, i as int),
                        BindingItemKind::Function,
                    )[j] == BindingItem::Function(*r@[j]),
            decreases self.items@.len() - i,
        {
            let ghost sub = self.items@.subrange(0, i + 1);
            assert(sub.drop_last() =~= self.items@.subrange(0, i as int));
            reveal_with_fuel(Seq::filter, 1);
            match &self.items[i] {
                BindingItem::Function(x) => {
                    r.push(x);
                },
                _ => {},
            }
            i = i + 1;
        }
        assert(self.items@.subrange(0, i as int) =~= self.items@);
        r
    }

    pub fn records(&self) -> (r: Vec<&RecordBinding>)
        ensures
            r@.len() == items_of_kind(self.items@, BindingItemKind::Record).len(),
            forall|i: int|
                0 <= i < r@.len() ==> items_of_kind(self.items@, BindingItemKind::Record)[i]
                    == BindingItem::Record(*r@[i]),
    {
        let mut r: Vec<&RecordBinding> = Vec::new();
        let mut i: usize = 0;
        while i < self.items.len()
            invariant
                i <= self.items@.len(),
                r@.len() == items_of_kind(self.items@.subrange(0, i as int), BindingItemKind::Record).len(),
                forall|j: int|
                    0 <= j < r@.len() ==> items_of_kind(
                        self.items@.subrange(0, i as int),
                        BindingItemKind::Record,
                    )[j] == BindingItem::Record(*r@[j]),
            decreases self.items@.len() - i,
        {
            let ghost sub = self.items@.subrange(0, i + 1);
            assert(sub.drop_last() =~= self.items@.subrange(0, i as int));
            reveal_with_fuel(Seq::filter, 1);
            match &self.items[i] {
                BindingItem::Record(x) => {
                    r.push(x);
                },
                _ => {},
            }
            i = i + 1;
        }
        assert(self.items@.subrange(0, i as int) =~= self.items@);
        r
    }

    pub fn enums(&self) -> (r: Vec<&EnumBinding>)
        ensures
            r@.len() == items_of_kind(self.items@, BindingItemKind::Enum).len(),
            forall|i: int|
                0 <= i < r@.len() ==> items_of_kind(self.items@, BindingItemKind::Enum)[i]
                    == BindingItem::Enum(*r@[i]),
    {
        let mut r: Vec<&EnumBinding> = Vec::new();
        let mut i: usize = 0;
        while i < self.items.len()
            invariant
                i <= self.items@.len(),
                r@.len() == items_of_kind(self.items@.subrange(0, i as int), BindingItemKind::Enum).len(),
                forall|j: int|
                    0 <= j < r@.len() ==> items_of_kind(
                        self.items@.subrange(0, i as int),
                        BindingItemKind::Enum,
                    )[j] == BindingItem::Enum(*r@[j]),
            decreases self.items@.len() - i,
        {
            let ghost sub = self.items@.subrange(0, i + 1);
            assert(sub.drop_last() =~= self.items@.subrange(0, i as int));
            reveal_with_fuel(Seq::filter, 1);
            match &self.items[i] {
                BindingItem::Enum(x) => {
                    r.push(x);
                },
                _ => {},
            }
            i = i + 1;
        }
        assert(self.items@.subrange(0, i as int) =~= self.items@);
        r
    }

    pub fn type_aliases(&self) -> (r: Vec<&TypeAliasBinding>)
        ensures
            r@.len() == items_of_kind(self.items@, BindingItemKind::TypeAlias).len(),
            forall|i: int|
                0 <= i < r@.len() ==> items_of_kind(self.items@, BindingItemKind::TypeAlias)[i]
                    == BindingItem::TypeAlias(*r@[i]),
    {
        let mut r: Vec<&TypeAliasBinding> = Vec::new();
        let mut i: usize = 0;
        while i < self.items.len()
            invariant
                i <= self.items@.len(),
                r@.len() == items_of_kind(self.items@.subrange(0, i as int), BindingItemKind::TypeAlias).len(),
                forall|j: int|
                    0 <= j < r@.len() ==> items_of_kind(
                        self.items@.subrange(0, i as int),
                        BindingItemKind::TypeAlias,
                    )[j] == BindingItem::TypeAlias(*r@[j]),
            decreases self.items@.len() - i,
        {
            let ghost sub = self.items@.subrange(0, i + 1);
            assert(sub.drop_last() =~= self.items@.subrange(0, i as int));
            reveal_with_fuel(Seq::filter, 1);
            match &self.items[i] {
                BindingItem::TypeAlias(x) => {
                    r.push(x);
                },
                _ => {},
            }
            i = i + 1;
        }
        assert(self.items@.subrange(0, i as int) =~= self.items@);
        r
    }

    pub fn variables(&self) -> (r: Vec<&VariableBinding>)
        ensures
            r@.len() == items_of_kind(self.items@, BindingItemKind::Variable).len(),
            forall|i: int|
                0 <= i < r@.len() ==> items_of_kind(self.items@, BindingItemKind::Variable)[i]
                    == BindingItem::Variable(*r@[i]),
    {
        let mut r: Vec<&VariableBinding> = Vec::new();
        let mut i: usize = 0;
        while i < self.items.len()
            invariant
                i <= self.items@.len(),
                r@.len() == items_of_kind(self.items@.subrange(0, i as int), BindingItemKind::Variable).len(),
                forall|j: int|
                    0 <= j < r@.len() ==> items_of_kind(
                        self.items@.subrange(0, i as int),
                        BindingItemKind::Variable,
                    )[j] == BindingItem::Variable(*r@[j]),
            decreases self.items@.len() - i,
        {
            let ghost sub = self.items@.subrange(0, i + 1);
            assert(sub.drop_last() =~= self.items@.subrange(0, i as int));
            reveal_with_fuel(Seq::filter, 1);
            match &self.items[i] {
                BindingItem::Variable(x) => {
                    r.push(x);
                },
                _ => {},
            }
            i = i + 1;
        }
        assert(self.items@.subrange(0, i as int) =~= self.items@);
        r
    }

    pub fn unsupported_items(&self) -> (r: Vec<&UnsupportedItem>)
        ensures
            r@.len() == items_of_kind(self.items@, BindingItemKind::Unsupported).len(),
            forall|i: int|
                0 <= i < r@.len() ==> items_of_kind(self.items@, BindingItemKind::Unsupported)[i]
                    == BindingItem::Unsupported(*r@[i]),
    {
        let mut r: Vec<&UnsupportedItem> = Vec::new();
        let mut i: usize = 0;
        while i < self.items.len()
            invariant
                i <= self.items@.len(),
                r@.len() == items_of_kind(self.items@.subrange(0, i as int), BindingItemKind::Unsupported).len(),
                forall|j: int|
                    0 <= j < r@.len() ==> items_of_kind(
                        self.items@.subrange(0, i as int),
                        BindingItemKind::Unsupported,
                    )[j] == BindingItem::Unsupported(*r@[j]),
            decreases self.items@.len() - i,
        {
            let ghost sub = self.items@.subrange(0, i + 1);
            assert(sub.drop_last() =~= self.items@.subrange(0, i as int));
            reveal_with_fuel(Seq::filter, 1);
            match &self.items[i] {
                BindingItem::Unsupported(x) => {
                    r.push(x);
                },
                _ => {},
            }
            i = i + 1;
        }
        assert(self.items@.subrange(0, i as int) =~= self.items@);
        r
    }

    /// Number of items of kind `k`.
    fn count_of_kind(&self, k: BindingItemKind) -> (r: usize)
        ensures
            r == items_of_kind(self.items@, k).len(),
    {
        let mut n: usize = 0;
        let mut i: usize = 0;
        while i < self.items.len()
            invariant
                i <= self.items@.len(),
                n == items_of_kind(self.items@.subrange(0, i as int), k).len(),
                n <= i,
            decreases self.items@.len() - i,
        {
            let ghost sub = self.items@.subrange(0, i + 1);
            assert(sub.drop_last() =~= self.items@.subrange(0, i as int));
            reveal_with_fuel(Seq::filter, 1);
            if kind_of(&self.items[i]) == k {
                n = n + 1;
            }
            i = i + 1;
        }
        assert(self.items@.subrange(0, i as int) =~= self.items@);
        n
    }

    /// Index of the first item of kind `k` named `name`.
    fn find_named(&self, k: BindingItemKind, name: &str) -> (r: Option<usize>)
        ensures
            match r {
                Some(i) => first_named(self.items@, k, name@) == Some(i as int) && i
                    < self.items@.len(),
                None => first_named(self.items@, k, name@) is None,
            },
    {
        let mut i: usize = 0;
        while i < self.items.len()
            invariant
                i <= self.items@.len(),
                first_named(self.items@.subrange(0, i as int), k, name@) is None,
            decreases self.items@.len() - i,
        {
            let ghost sub = self.items@.subrange(0, i + 1);
            assert(sub.drop_last() =~= self.items@.subrange(0, i as int));
            if kind_of(&self.items[i]) == k && name_is(&self.items[i], name) {
                proof {
                    lemma_first_named_prefix(self.items@, k, name@, i + 1);
                }
                return Some(i);
            }
            i = i + 1;
        }
        assert(self.items@.subrange(0, i as int) =~= self.items@);
        None
    }

    pub fn find_function(&self, name: &str) -> (r: Option<&FunctionBinding>)
        ensures
            match first_named(self.items@, BindingItemKind::Function, name@) {
                Some(i) => r matches Some(f) && self.items@[i] == BindingItem::Function(*f),
                None => r.is_none(),
            },
    {
        proof {
            lemma_first_named_some(self.items@, BindingItemKind::Function, name@);
        }
        match self.find_named(BindingItemKind::Function, name) {
            Some(i) => match &self.items[i] {
                BindingItem::Function(f) => Some(f),
                _ => None,
            },
            None => None,
        }
    }

    pub fn find_record(&self, name: &str) -> (r: Option<&RecordBinding>)
        ensures
            match first_named(self.items@, BindingItemKind::Record, name@) {
                Some(i) => r matches Some(x) && self.items@[i] == BindingItem::Record(*x),
                None => r.is_none(),
            },
    {
        proof {
            lemma_first_named_some(self.items@, BindingItemKind::Record, name@);
        }
        match self.find_named(BindingItemKind::Record, name) {
            Some(i) => match &self.items[i] {
                BindingItem::Record(x) => Some(x),
                _ => None,
            },
            None => None,
        }
    }

    pub fn find_enum(&self, name: &str) -> (r: Option<&EnumBinding>)
        ensures
            match first_named(self.items@, BindingItemKind::Enum, name@) {
                Some(i) => r matches Some(x) && self.items@[i] == BindingItem::Enum(*x),
                None => r.is_none(),
            },
    {
        proof {
            lemma_first_named_some(self.items@, BindingItemKind::Enum, name@);
        }
        match self.find_named(BindingItemKind::Enum, name) {
            Some(i) => match &self.items[i] {
                BindingItem::Enum(x) => Some(x),
                _ => None,
            },
            None => None,
        }
    }

    pub fn find_type_alias(&self, name: &str) -> (r: Option<&TypeAliasBinding>)
        ensures
            match first_named(self.items@, BindingItemKind::TypeAlias, name@) {
                Some(i) => r matches Some(x) && self.items@[i] == BindingItem::TypeAlias(*x),
                None => r.is_none(),
            },
    {
        proof {
            lemma_first_named_some(self.items@, BindingItemKind::TypeAlias, name@);
        }
        match self.find_named(BindingItemKind::TypeAlias, name) {
            Some(i) => match &self.items[i] {
                BindingItem::TypeAlias(x) => Some(x),
                _ => None,
            },
            None => None,
        }
    }

    pub fn find_variable(&self, name: &str) -> (r: Option<&VariableBinding>)
        ensures
            match first_named(self.items@, BindingItemKind::Variable, name@) {
                Some(i) => r matches Some(x) && self.items@[i] == BindingItem::Variable(*x),
                None => r.is_none(),
            },
    {
        proof {
            lemma_first_named_some(self.items@, BindingItemKind::Variable, name@);
        }
        match self.find_named(BindingItemKind::Variable, name) {
            Some(i) => match &self.items[i] {
                BindingItem::Variable(x) => Some(x),
                _ => None,
            },
            None => None,
        }
    }

    pub fn find_unsupported(&self, name: &str) -> (r: Option<&UnsupportedItem>)
        ensures
            match first_named(self.items@, BindingItemKind::Unsupported, name@) {
                Some(i) => r matches Some(x) && self.items@[i] == BindingItem::Unsupported(*x),
                None => r.is_none(),
            },
    {
        proof {
            lemma_first_named_some(self.items@, BindingItemKind::Unsupported, name@);
        }
        match self.find_named(BindingItemKind::Unsupported, name) {
            Some(i) => match &self.items[i] {
                BindingItem::Unsupported(x) => Some(x),
                _ => None,
            },
            None => None,
        }
    }

    pub fn function_count(&self) -> (r: usize)
        ensures
            r == items_of_kind(self.items@, BindingItemKind::Function).len(),
    {
        self.count_of_kind(BindingItemKind::Function)
    }

    pub fn record_count(&self) -> (r: usize)
        ensures
            r == items_of_kind(self.items@, BindingItemKind::Record).len(),
    {
        self.count_of_kind(BindingItemKind::Record)
    }

    pub fn enum_count(&self) -> (r: usize)
        ensures
            r == items_of_kind(self.items@, BindingItemKind::Enum).len(),
    {
        self.count_of_kind(BindingItemKind::Enum)
    }

    pub fn type_alias_count(&self) -> (r: usize)
        ensures
            r == items_of_kind(self.items@, BindingItemKind::TypeAlias).len(),
    {
        self.count_of_kind(BindingItemKind::TypeAlias)
    }

    pub fn variable_count(&self) -> (r: usize)
        ensures
            r == items_of_kind(self.items@, BindingItemKind::Variable).len(),
    {
        self.count_of_kind(BindingItemKind::Variable)
    }

    pub fn unsupported_count(&self) -> (r: usize)
        ensures
            r == items_of_kind(self.items@, BindingItemKind::Unsupported).len(),
    {
        self.count_of_kind(BindingItemKind::Unsupported)
    }
}

/// Kind of an item.
pub fn kind_of(item: &BindingItem) -> (r: BindingItemKind)
    ensures
        r == item_kind(*item),
{
    match item {
        BindingItem::Function(_) => BindingItemKind::Function,
        BindingItem::Record(_) => BindingItemKind::Record,
        BindingItem::Enum(_) => BindingItemKind::Enum,
        BindingItem::TypeAlias(_) => BindingItemKind::TypeAlias,
        BindingItem::Variable(_) => BindingItemKind::Variable,
        BindingItem::Unsupported(_) => BindingItemKind::Unsupported,
    }
}

/// Whether the item is named `name`.
fn name_is(item: &BindingItem, name: &str) -> (r: bool)
    ensures
        r == (item_name(*item) == Some(name@)),
{
    match item {
        BindingItem::Function(f) => crate::text::str_eq(f.name.as_str(), name),
        BindingItem::Record(x) => opt_name_is(&x.name, name),
        BindingItem::Enum(x) => opt_name_is(&x.name, name),
        BindingItem::TypeAlias(x) => crate::text::str_eq(x.name.as_str(), name),
        BindingItem::Variable(x) => crate::text::str_eq(x.name.as_str(), name),
        BindingItem::Unsupported(x) => opt_name_is(&x.name, name),
    }
}

fn opt_name_is(o: &Option<String>, name: &str) -> (r: bool)
    ensures
        r == (opt_str(*o) == Some(name@)),
{
    match o {
        Some(s) => crate::text::str_eq(s.as_str(), name),
        None => false,
    }
}

proof fn lemma_first_named_prefix(items: Seq<BindingItem>, k: BindingItemKind, name: Seq<char>, j: int)
    requires
        0 < j <= items.len(),
        first_named(items.subrange(0, j - 1), k, name) is None,
        item_kind(items[j - 1]) == k && item_name(items[j - 1]) == Some(name),
    ensures
        first_named(items, k, name) == Some(j - 1),
    decreases items.len(),
{
    if j == items.len() {
        assert(items.drop_last() =~= items.subrange(0, j - 1));
    } else {
        assert(items.drop_last().subrange(0, j - 1) =~= items.subrange(0, j - 1));
        lemma_first_named_prefix(items.drop_last(), k, name, j);
    }
}

} // verus!
