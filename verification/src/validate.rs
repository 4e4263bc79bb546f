//! Validation of a binding package's functions and variables against the symbols
//! that inspected native artifacts provide.
use vstd::prelude::*;

use crate::ir::{
    BindingItem, BindingItemKind, BindingPackage, BindingType, TypeAliasBinding, TypeLayout,
};
use crate::ir::first_named;
use crate::symbols::{
    FunctionAbiHint, SymbolBinding, SymbolDirection, SymbolEntry, SymbolInventory,
    SymbolVisibility,
};
use crate::text::{
    chars_of, concat_chars, find_char_s, str_eq, string_of, string_of_range, strs,
};

verus! {

/// Declaration category that validation reasons about.
#[derive(Debug, Clone, Copy, PartialEq, Eq, Structural)]
pub enum ItemKind {
    Function,
    Variable,
}

/// Validation outcome for one declaration/provider comparison.
#[derive(Debug, Clone, Copy, PartialEq, Eq, Structural)]
pub enum MatchStatus {
    Matched,
    AbiShapeMismatch,
    Missing,
    UnresolvedDeclaredLinkInputs,
    DecorationMismatch,
    NotAFunction,
    NotAVariable,
    Hidden,
    WeakMatch,
    DuplicateProviders,
}

#[derive(Debug, Clone, Copy, PartialEq, Eq, Structural)]
pub enum ValidationPhase {
    ProviderDiscovery,
    SymbolIdentity,
    AbiEvidence,
}

#[derive(Debug, Clone, Copy, PartialEq, Eq, Structural)]
pub struct ValidationPhaseReport {
    pub phase: ValidationPhase,
    pub completed: bool,
}

#[derive(Debug, Clone, PartialEq, Eq)]
pub struct ValidationDeclaration {
    pub name: String,
    pub item_kind: ItemKind,
}

#[derive(Debug, Clone, PartialEq, Eq)]
pub struct ValidationEvidence {
    pub provider_artifacts: Vec<String>,
    pub raw_symbol_names: Vec<String>,
    pub visibility: Option<SymbolVisibility>,
    pub confidence: MatchConfidence,
    pub evidence_kind: EvidenceKind,
    pub abi_shape: Option<AbiShapeEvidence>,
    pub routine_abi: Option<RoutineAbiEvidence>,
}

#[derive(Debug, Clone, PartialEq, Eq)]
pub struct ValidationEntry {
    pub declaration: ValidationDeclaration,
    pub status: MatchStatus,
    pub evidence: ValidationEvidence,
}

/// Counts of match statuses over a report.
#[derive(Debug, Clone, Copy, PartialEq, Eq, Structural)]
pub struct ValidationSummary {
    pub total: usize,
    pub matched: usize,
    pub abi_shape_mismatches: usize,
    pub missing: usize,
    pub unresolved_declared_link_inputs: usize,
    pub hidden: usize,
    pub weak_matches: usize,
    pub duplicate_providers: usize,
    pub decoration_mismatches: usize,
    pub kind_mismatches: usize,
}

impl Default for ValidationSummary {
    fn default() -> (r: Self)
        ensures
            r == zero_summary(),
    {
        ValidationSummary {
            total: 0,
            matched: 0,
            abi_shape_mismatches: 0,
            missing: 0,
            unresolved_declared_link_inputs: 0,
            hidden: 0,
            weak_matches: 0,
            duplicate_providers: 0,
            decoration_mismatches: 0,
            kind_mismatches: 0,
        }
    }
}

/// A summary with every count zero.
pub open spec fn zero_summary() -> ValidationSummary {
    ValidationSummary {
        total: 0,
        matched: 0,
        abi_shape_mismatches: 0,
        missing: 0,
        unresolved_declared_link_inputs: 0,
        hidden: 0,
        weak_matches: 0,
        duplicate_providers: 0,
        decoration_mismatches: 0,
        kind_mismatches: 0,
    }
}

#[derive(Debug, Clone, Copy, PartialEq, Eq, Structural)]
pub enum MatchConfidence {
    High,
    Medium,
    Low,
    /// No provider evidence at all.
    NoConfidence,
}

#[derive(Debug, Clone, Copy, PartialEq, Eq, Structural)]
pub enum EvidenceKind {
    ExactExported,
    AbiShapeVerified,
    WeakExported,
    HiddenProvider,
    DecoratedCandidate,
    ReexportedCandidate,
    DuplicateVisibleProviders,
    DeclaredLinkInputsWithoutProvider,
    MissingProvider,
    AbiShapeMismatch,
    KindMismatch,
}

#[derive(Debug, Clone, Copy, PartialEq, Eq, Structural)]
pub struct AbiShapeEvidence {
    pub expected_size: Option<u64>,
    pub observed_size: Option<u64>,
}

#[derive(Debug, Clone, PartialEq, Eq)]
pub struct RoutineAbiEvidence {
    pub evidence_kind: Option<RoutineAbiEvidenceKind>,
    pub confidence: Option<RoutineAbiConfidence>,
    pub expected_parameter_count: Option<usize>,
    pub observed_parameter_count: Option<usize>,
    pub expected_return_size: Option<u64>,
    pub observed_return_size: Option<u64>,
    pub expected_parameter_sizes: Vec<Option<u64>>,
    pub observed_parameter_sizes: Vec<Option<u64>>,
}

#[derive(Debug, Clone, Copy, PartialEq, Eq, Structural)]
pub enum RoutineAbiEvidenceKind {
    ParameterCountOnly,
    ReturnShapeOnly,
    ParameterShapesOnly,
    ParameterCountAndReturnShape,
    ParameterCountAndParameterShapes,
    ReturnShapeAndParameterShapes,
    FullyShaped,
    Mismatch,
}

#[derive(Debug, Clone, Copy, PartialEq, Eq, Structural)]
pub enum RoutineAbiConfidence {
    Partial,
    Strong,
    Mismatch,
}

/// Former name of `SymbolMatch`, which covers functions and variables.
pub type FunctionMatch = SymbolMatch;

/// Validation evidence for one declaration name.
///
/// This is report data, not an error channel: non-matched states still come from a
/// successful validation run.
#[derive(Debug, Clone, PartialEq, Eq)]
pub struct SymbolMatch {
    pub name: String,
    pub item_kind: ItemKind,
    pub status: MatchStatus,
    pub visibility: Option<SymbolVisibility>,
    pub provider_artifacts: Vec<String>,
    pub confidence: MatchConfidence,
    pub evidence_kind: EvidenceKind,
}

/// Aggregate validation report for a package against one or more inventories.
#[derive(Debug, Clone, PartialEq, Eq)]
pub struct ValidationReport {
    pub phases: Vec<ValidationPhaseReport>,
    pub entries: Vec<ValidationEntry>,
    pub summary: ValidationSummary,
    pub matches: Vec<SymbolMatch>,
}

// ---------------------------------------------------------------------------
// Entry and evidence predicates
// ---------------------------------------------------------------------------

/// Evidence backed by sizes: an ABI shape, or routine evidence with a return size or
/// parameter sizes.
pub open spec fn spec_layout_backed(e: ValidationEvidence) -> bool {
    e.abi_shape is Some || (e.routine_abi matches Some(r) && (r.expected_return_size is Some
        || r.observed_return_size is Some || r.expected_parameter_sizes@.len() > 0
        || r.observed_parameter_sizes@.len() > 0))
}

pub open spec fn resolved_state(s: MatchStatus) -> bool {
    s == MatchStatus::Matched || s == MatchStatus::AbiShapeMismatch || s == MatchStatus::WeakMatch
}

pub open spec fn unresolved_state(s: MatchStatus) -> bool {
    s == MatchStatus::Missing || s == MatchStatus::UnresolvedDeclaredLinkInputs
}

impl ValidationEvidence {
    pub fn has_layout_backed_confidence(&self) -> (r: bool)
        ensures
            r == spec_layout_backed(*self),
    {
        self.abi_shape.is_some() || match &self.routine_abi {
            Some(routine) => routine.expected_return_size.is_some()
                || routine.observed_return_size.is_some()
                || routine.expected_parameter_sizes.len() > 0
                || routine.observed_parameter_sizes.len() > 0,
            None => false,
        }
    }
}

impl ValidationEntry {
    pub fn has_layout_backed_confidence(&self) -> (r: bool)
        ensures
            r == spec_layout_backed(self.evidence),
    {
        self.evidence.has_layout_backed_confidence()
    }

    pub fn has_resolved_provider_state(&self) -> (r: bool)
        ensures
            r == resolved_state(self.status),
    {
        self.status == MatchStatus::Matched || self.status == MatchStatus::AbiShapeMismatch
            || self.status == MatchStatus::WeakMatch
    }

    pub fn has_unresolved_provider_state(&self) -> (r: bool)
        ensures
            r == unresolved_state(self.status),
    {
        self.status == MatchStatus::Missing || self.status
            == MatchStatus::UnresolvedDeclaredLinkInputs
    }

    pub fn has_ambiguous_provider_state(&self) -> (r: bool)
        ensures
            r == (self.status == MatchStatus::DuplicateProviders),
    {
        self.status == MatchStatus::DuplicateProviders
    }
}

// ---------------------------------------------------------------------------
// Summary and phases
// ---------------------------------------------------------------------------

/// Number of matches with status `s`.
pub open spec fn count_status(ms: Seq<SymbolMatch>, s: MatchStatus) -> nat
    decreases ms.len(),
{
    if ms.len() == 0 {
        0
    } else {
        count_status(ms.drop_last(), s) + if ms.last().status == s {
            1nat
        } else {
            0nat
        }
    }
}

/// The summary of a list of matches: its length and the count of each status, kind
/// mismatches of both kinds together.
pub open spec fn summary_of(ms: Seq<SymbolMatch>) -> ValidationSummary {
    ValidationSummary {
        total: ms.len() as usize,
        matched: count_status(ms, MatchStatus::Matched) as usize,
        abi_shape_mismatches: count_status(ms, MatchStatus::AbiShapeMismatch) as usize,
        missing: count_status(ms, MatchStatus::Missing) as usize,
        unresolved_declared_link_inputs: count_status(
            ms,
            MatchStatus::UnresolvedDeclaredLinkInputs,
        ) as usize,
        hidden: count_status(ms, MatchStatus::Hidden) as usize,
        weak_matches: count_status(ms, MatchStatus::WeakMatch) as usize,
        duplicate_providers: count_status(ms, MatchStatus::DuplicateProviders) as usize,
        decoration_mismatches: count_status(ms, MatchStatus::DecorationMismatch) as usize,
        kind_mismatches: (count_status(ms, MatchStatus::NotAFunction) + count_status(
            ms,
            MatchStatus::NotAVariable,
        )) as usize,
    }
}

proof fn lemma_count_status_le(ms: Seq<SymbolMatch>, s: MatchStatus)
    ensures
        count_status(ms, s) <= ms.len(),
    decreases ms.len(),
{
    if ms.len() > 0 {
        lemma_count_status_le(ms.drop_last(), s);
    }
}

proof fn lemma_count_sum(ms: Seq<SymbolMatch>)
    ensures
        count_status(ms, MatchStatus::Matched) + count_status(ms, MatchStatus::AbiShapeMismatch)
            + count_status(ms, MatchStatus::Missing) + count_status(
            ms,
            MatchStatus::UnresolvedDeclaredLinkInputs,
        ) + count_status(ms, MatchStatus::Hidden) + count_status(ms, MatchStatus::WeakMatch)
            + count_status(ms, MatchStatus::DuplicateProviders) + count_status(
            ms,
            MatchStatus::DecorationMismatch,
        ) + count_status(ms, MatchStatus::NotAFunction) + count_status(
            ms,
            MatchStatus::NotAVariable,
        ) == ms.len(),
    decreases ms.len(),
{
    if ms.len() > 0 {
        lemma_count_sum(ms.drop_last());
    }
}

/// Every match is counted under exactly one heading of its summary: the counts add up
/// to the total.
pub proof fn lemma_summary_partitions(ms: Seq<SymbolMatch>)
    requires
        ms.len() <= usize::MAX,
    ensures
        ({
            let s = summary_of(ms);
            s.matched + s.abi_shape_mismatches + s.missing + s.unresolved_declared_link_inputs
                + s.hidden + s.weak_matches + s.duplicate_providers + s.decoration_mismatches
                + s.kind_mismatches == s.total
        }),
{
    lemma_count_sum(ms);
    lemma_count_status_le(ms, MatchStatus::Matched);
    lemma_count_status_le(ms, MatchStatus::AbiShapeMismatch);
    lemma_count_status_le(ms, MatchStatus::Missing);
    lemma_count_status_le(ms, MatchStatus::UnresolvedDeclaredLinkInputs);
    lemma_count_status_le(ms, MatchStatus::Hidden);
    lemma_count_status_le(ms, MatchStatus::WeakMatch);
    lemma_count_status_le(ms, MatchStatus::DuplicateProviders);
    lemma_count_status_le(ms, MatchStatus::DecorationMismatch);
    lemma_count_status_le(ms, MatchStatus::NotAFunction);
    lemma_count_status_le(ms, MatchStatus::NotAVariable);
}

fn build_summary(matches: &Vec<SymbolMatch>) -> (r: ValidationSummary)
    ensures
        r == summary_of(matches@),
{
    let mut summary = ValidationSummary::default();
    summary.total = matches.len();
    let mut i: usize = 0;
    while i < matches.len()
        invariant
            i <= matches@.len(),
            ({
                let s = summary_of(matches@.subrange(0, i as int));
                summary == ValidationSummary { total: matches@.len() as usize, ..s }
            }),
        decreases matches@.len() - i,
    {
        let ghost sub = matches@.subrange(0, i + 1);
        proof {
            assert(sub.drop_last() =~= matches@.subrange(0, i as int));
            lemma_count_sum(matches@.subrange(0, i as int));
        }
        match matches[i].status {
            MatchStatus::Matched => summary.matched = summary.matched + 1,
            MatchStatus::AbiShapeMismatch => summary.abi_shape_mismatches = summary.abi_shape_mismatches + 1,
            MatchStatus::Missing => summary.missing = summary.missing + 1,
            MatchStatus::UnresolvedDeclaredLinkInputs => summary.unresolved_declared_link_inputs = summary.unresolved_declared_link_inputs + 1,
            MatchStatus::Hidden => summary.hidden = summary.hidden + 1,
            MatchStatus::WeakMatch => summary.weak_matches = summary.weak_matches + 1,
            MatchStatus::DuplicateProviders => summary.duplicate_providers = summary.duplicate_providers + 1,
            MatchStatus::DecorationMismatch => summary.decoration_mismatches = summary.decoration_mismatches + 1,
            MatchStatus::NotAFunction => summary.kind_mismatches = summary.kind_mismatches + 1,
            MatchStatus::NotAVariable => summary.kind_mismatches = summary.kind_mismatches + 1,
        }
        i = i + 1;
    }
    assert(matches@.subrange(0, matches@.len() as int) =~= matches@);
    summary
}

/// The three validation phases; identity and discovery always complete, ABI evidence
/// only when some ABI evidence was compared.
pub open spec fn phases_for(abi: bool) -> Seq<ValidationPhaseReport> {
    seq![
        ValidationPhaseReport { phase: ValidationPhase::ProviderDiscovery, completed: true },
        ValidationPhaseReport { phase: ValidationPhase::SymbolIdentity, completed: true },
        ValidationPhaseReport { phase: ValidationPhase::AbiEvidence, completed: abi },
    ]
}

fn build_validation_phases(abi_evidence_completed: bool) -> (r: Vec<ValidationPhaseReport>)
    ensures
        r@ == phases_for(abi_evidence_completed),
{
    let r = vec![
        ValidationPhaseReport { phase: ValidationPhase::ProviderDiscovery, completed: true },
        ValidationPhaseReport { phase: ValidationPhase::SymbolIdentity, completed: true },
        ValidationPhaseReport {
            phase: ValidationPhase::AbiEvidence,
            completed: abi_evidence_completed,
        },
    ];
    assert(r@ =~= phases_for(abi_evidence_completed));
    r
}

/// The phases of a report that compared no ABI evidence.
pub fn default_validation_phases() -> (r: Vec<ValidationPhaseReport>)
    ensures
        r@ == phases_for(false),
{
    build_validation_phases(false)
}

// ---------------------------------------------------------------------------
// Report queries
// ---------------------------------------------------------------------------

pub open spec fn status_pred(s: MatchStatus) -> spec_fn(SymbolMatch) -> bool {
    |m: SymbolMatch| m.status == s
}

/// Matches with status `s`, in report order.
pub open spec fn with_status(ms: Seq<SymbolMatch>, s: MatchStatus) -> Seq<SymbolMatch> {
    ms.filter(status_pred(s))
}

pub open spec fn entry_pred(which: EntryQuery) -> spec_fn(ValidationEntry) -> bool {
    |e: ValidationEntry| entry_selected(which, e)
}

/// Which entries a report query selects.
#[derive(Debug, Clone, Copy, PartialEq, Eq, Structural)]
pub enum EntryQuery {
    LayoutBacked,
    ResolvedProvider,
    UnresolvedProvider,
    AmbiguousProvider,
}

pub open spec fn entry_selected(which: EntryQuery, e: ValidationEntry) -> bool {
    match which {
        EntryQuery::LayoutBacked => spec_layout_backed(e.evidence),
        EntryQuery::ResolvedProvider => resolved_state(e.status),
        EntryQuery::UnresolvedProvider => unresolved_state(e.status),
        EntryQuery::AmbiguousProvider => e.status == MatchStatus::DuplicateProviders,
    }
}

impl ValidationReport {
    fn matches_with(&self, s: MatchStatus) -> (r: Vec<&SymbolMatch>)
        ensures
            r@.len() == with_status(self.matches@, s).len(),
            forall|i: int| 0 <= i < r@.len() ==> *r@[i] == with_status(self.matches@, s)[i],
    {
        let mut r: Vec<&SymbolMatch> = Vec::new();
        let mut i: usize = 0;
        while i < self.matches.len()
            invariant
                i <= self.matches@.len(),
                r@.len() == with_status(self.matches@.subrange(0, i as int), s).len(),
                forall|j: int|
                    0 <= j < r@.len() ==> *r@[j] == with_status(
                        self.matches@.subrange(0, i as int),
                        s,
                    )[j],
            decreases self.matches@.len() - i,
        {
            let ghost sub = self.matches@.subrange(0, i + 1);
            assert(sub.drop_last() =~= self.matches@.subrange(0, i as int));
            reveal_with_fuel(Seq::filter, 1);
            if self.matches[i].status == s {
                r.push(&self.matches[i]);
            }
            i = i + 1;
        }
        assert(self.matches@.subrange(0, i as int) =~= self.matches@);
        r
    }

    fn entries_where(&self, which: EntryQuery) -> (r: Vec<&ValidationEntry>)
        ensures
            r@.len() == self.entries@.filter(entry_pred(which)).len(),
            forall|i: int| 0 <= i < r@.len() ==> *r@[i] == self.entries@.filter(entry_pred(which))[i],
    {
        let mut r: Vec<&ValidationEntry> = Vec::new();
        let mut i: usize = 0;
        while i < self.entries.len()
            invariant
                i <= self.entries@.len(),
                r@.len() == self.entries@.subrange(0, i as int).filter(entry_pred(which)).len(),
                forall|j: int|
                    0 <= j < r@.len() ==> *r@[j] == self.entries@.subrange(0, i as int).filter(
                        entry_pred(which),
                    )[j],
            decreases self.entries@.len() - i,
        {
            let ghost sub = self.entries@.subrange(0, i + 1);
            assert(sub.drop_last() =~= self.entries@.subrange(0, i as int));
            reveal_with_fuel(Seq::filter, 1);
            let e = &self.entries[i];
            let keep = match which {
                EntryQuery::LayoutBacked => e.has_layout_backed_confidence(),
                EntryQuery::ResolvedProvider => e.has_resolved_provider_state(),
                EntryQuery::UnresolvedProvider => e.has_unresolved_provider_state(),
                EntryQuery::AmbiguousProvider => e.has_ambiguous_provider_state(),
            };
            if keep {
                r.push(e);
            }
            i = i + 1;
        }
        assert(self.entries@.subrange(0, i as int) =~= self.entries@);
        r
    }

    pub fn matched(&self) -> (r: Vec<&SymbolMatch>)
        ensures
            r@.len() == with_status(self.matches@, MatchStatus::Matched).len(),
            forall|i: int|
                0 <= i < r@.len() ==> *r@[i] == with_status(self.matches@, MatchStatus::Matched)[i],
    {
        self.matches_with(MatchStatus::Matched)
    }

    pub fn missing(&self) -> (r: Vec<&SymbolMatch>)
        ensures
            r@.len() == with_status(self.matches@, MatchStatus::Missing).len(),
            forall|i: int|
                0 <= i < r@.len() ==> *r@[i] == with_status(self.matches@, MatchStatus::Missing)[i],
    {
        self.matches_with(MatchStatus::Missing)
    }

    pub fn hidden(&self) -> (r: Vec<&SymbolMatch>)
        ensures
            r@.len() == with_status(self.matches@, MatchStatus::Hidden).len(),
            forall|i: int|
                0 <= i < r@.len() ==> *r@[i] == with_status(self.matches@, MatchStatus::Hidden)[i],
    {
        self.matches_with(MatchStatus::Hidden)
    }

    pub fn all_matched(&self) -> (r: bool)
        ensures
            r == forall|i: int|
                0 <= i < self.matches@.len() ==> (#[trigger] self.matches@[i]).status
                    == MatchStatus::Matched,
    {
        let mut i: usize = 0;
        while i < self.matches.len()
            invariant
                i <= self.matches@.len(),
                forall|k: int|
                    0 <= k < i ==> (#[trigger] self.matches@[k]).status == MatchStatus::Matched,
            decreases self.matches@.len() - i,
        {
            if self.matches[i].status != MatchStatus::Matched {
                return false;
            }
            i = i + 1;
        }
        true
    }

    pub fn duplicate_providers(&self) -> (r: Vec<&SymbolMatch>)
        ensures
            r@.len() == with_status(self.matches@, MatchStatus::DuplicateProviders).len(),
            forall|i: int|
                0 <= i < r@.len() ==> *r@[i] == with_status(
                    self.matches@,
                    MatchStatus::DuplicateProviders,
                )[i],
    {
        self.matches_with(MatchStatus::DuplicateProviders)
    }

    pub fn unresolved_declared(&self) -> (r: Vec<&SymbolMatch>)
        ensures
            r@.len() == with_status(self.matches@, MatchStatus::UnresolvedDeclaredLinkInputs).len(),
            forall|i: int|
                0 <= i < r@.len() ==> *r@[i] == with_status(
                    self.matches@,
                    MatchStatus::UnresolvedDeclaredLinkInputs,
                )[i],
    {
        self.matches_with(MatchStatus::UnresolvedDeclaredLinkInputs)
    }

    pub fn weak_matches(&self) -> (r: Vec<&SymbolMatch>)
        ensures
            r@.len() == with_status(self.matches@, MatchStatus::WeakMatch).len(),
            forall|i: int|
                0 <= i < r@.len() ==> *r@[i] == with_status(self.matches@, MatchStatus::WeakMatch)[i],
    {
        self.matches_with(MatchStatus::WeakMatch)
    }

    pub fn layout_backed_entries(&self) -> (r: Vec<&ValidationEntry>)
        ensures
            r@.len() == self.entries@.filter(entry_pred(EntryQuery::LayoutBacked)).len(),
            forall|i: int|
                0 <= i < r@.len() ==> *r@[i] == self.entries@.filter(
                    entry_pred(EntryQuery::LayoutBacked),
                )[i],
    {
        self.entries_where(EntryQuery::LayoutBacked)
    }

    pub fn resolved_provider_entries(&self) -> (r: Vec<&ValidationEntry>)
        ensures
            r@.len() == self.entries@.filter(entry_pred(EntryQuery::ResolvedProvider)).len(),
            forall|i: int|
                0 <= i < r@.len() ==> *r@[i] == self.entries@.filter(
                    entry_pred(EntryQuery::ResolvedProvider),
                )[i],
    {
        self.entries_where(EntryQuery::ResolvedProvider)
    }

    pub fn unresolved_provider_entries(&self) -> (r: Vec<&ValidationEntry>)
        ensures
            r@.len() == self.entries@.filter(entry_pred(EntryQuery::UnresolvedProvider)).len(),
            forall|i: int|
                0 <= i < r@.len() ==> *r@[i] == self.entries@.filter(
                    entry_pred(EntryQuery::UnresolvedProvider),
                )[i],
    {
        self.entries_where(EntryQuery::UnresolvedProvider)
    }

    pub fn ambiguous_provider_entries(&self) -> (r: Vec<&ValidationEntry>)
        ensures
            r@.len() == self.entries@.filter(entry_pred(EntryQuery::AmbiguousProvider)).len(),
            forall|i: int|
                0 <= i < r@.len() ==> *r@[i] == self.entries@.filter(
                    entry_pred(EntryQuery::AmbiguousProvider),
                )[i],
    {
        self.entries_where(EntryQuery::AmbiguousProvider)
    }
}

// ---------------------------------------------------------------------------
// Expected ABI sizes
// ---------------------------------------------------------------------------

/// Size of the first layout, in package order, named by one of `names`, from index `i`.
pub open spec fn layout_from(layouts: Seq<TypeLayout>, names: Seq<Seq<char>>, i: int) -> Option<u64>
    decreases layouts.len() - i,
{
    if i < 0 || i >= layouts.len() {
        None
    } else if names.contains(layouts[i].name@) {
        Some(layouts[i].size)
    } else {
        layout_from(layouts, names, i + 1)
    }
}

/// Size of the first layout named by one of `names`.
pub open spec fn layout_size_s(layouts: Seq<TypeLayout>, names: Seq<Seq<char>>) -> Option<u64> {
    layout_from(layouts, names, 0)
}

/// The first type alias of the package with this name.
pub open spec fn alias_named(pkg: BindingPackage, name: Seq<char>) -> Option<TypeAliasBinding> {
    match first_named(pkg.items@, BindingItemKind::TypeAlias, name) {
        Some(i) => match pkg.items@[i] {
            BindingItem::TypeAlias(a) => Some(a),
            _ => None,
        },
        None => None,
    }
}

/// Representation size of the first record with this name.
pub open spec fn record_size(pkg: BindingPackage, name: Seq<char>) -> Option<u64> {
    match first_named(pkg.items@, BindingItemKind::Record, name) {
        Some(i) => match pkg.items@[i] {
            BindingItem::Record(r) => match r.representation {
                Some(rep) => rep.size,
                None => None,
            },
            _ => None,
        },
        None => None,
    }
}

/// Underlying size of the first enum with this name.
pub open spec fn enum_size(pkg: BindingPackage, name: Seq<char>) -> Option<u64> {
    match first_named(pkg.items@, BindingItemKind::Enum, name) {
        Some(i) => match pkg.items@[i] {
            BindingItem::Enum(e) => match e.representation {
                Some(rep) => rep.underlying_size,
                None => None,
            },
            _ => None,
        },
        None => None,
    }
}

/// Layout names under which a typedef's size may have been probed: its own name and
/// the names of its resolved alias chain.
pub open spec fn typedef_layout_names(alias: TypeAliasBinding) -> Seq<Seq<char>> {
    seq![alias.name@] + match alias.canonical_resolution {
        Some(r) => strs(r.alias_chain@),
        None => seq![],
    }
}

/// Number of type-alias items whose name is not in `seen`.
pub open spec fn unseen_aliases(items: Seq<BindingItem>, seen: Seq<Seq<char>>) -> nat
    decreases items.len(),
{
    if items.len() == 0 {
        0
    } else {
        unseen_aliases(items.drop_last(), seen) + match items.last() {
            BindingItem::TypeAlias(a) => if seen.contains(a.name@) {
                0nat
            } else {
                1nat
            },
            _ => 0nat,
        }
    }
}

pub proof fn lemma_unseen_mono(items: Seq<BindingItem>, seen: Seq<Seq<char>>, more: Seq<Seq<char>>)
    requires
        forall|x: Seq<char>| seen.contains(x) ==> more.contains(x),
    ensures
        unseen_aliases(items, more) <= unseen_aliases(items, seen),
    decreases items.len(),
{
    if items.len() > 0 {
        lemma_unseen_mono(items.drop_last(), seen, more);
    }
}

pub proof fn lemma_unseen_push(items: Seq<BindingItem>, seen: Seq<Seq<char>>, name: Seq<char>)
    requires
        !seen.contains(name),
        first_named(items, BindingItemKind::TypeAlias, name) is Some,
    ensures
        unseen_aliases(items, seen.push(name)) < unseen_aliases(items, seen),
    decreases items.len(),
{
    let more = seen.push(name);
    assert forall|x: Seq<char>| seen.contains(x) implies more.contains(x) by {
        let k = choose|k: int| 0 <= k < seen.len() && seen[k] == x;
        assert(more[k] == x);
    }
    if first_named(items.drop_last(), BindingItemKind::TypeAlias, name) is Some {
        lemma_unseen_push(items.drop_last(), seen, name);
    } else {
        lemma_unseen_mono(items.drop_last(), seen, more);
        assert(more[seen.len() as int] == name);
    }
}

/// Expected ABI size of a type (LP64 scalar sizes; records, enums and opaque types by
/// probed layouts or recorded representations; typedefs through their layouts,
/// resolved target and declared target), with the alias names visited so far.
/// A typedef met again on the way yields nothing. Array sizes wrap on overflow.
pub open spec fn abi_size(pkg: BindingPackage, ty: BindingType, seen: Seq<Seq<char>>) -> (Option<u64>, Seq<Seq<char>>)
    decreases unseen_aliases(pkg.items@, seen), ty,
{
    match ty {
        BindingType::Bool | BindingType::Char | BindingType::SChar | BindingType::UChar => (Some(1u64), seen),
        BindingType::Short | BindingType::UShort => (Some(2u64), seen),
        BindingType::Int | BindingType::UInt | BindingType::Float => (Some(4u64), seen),
        BindingType::LongLong | BindingType::ULongLong | BindingType::Double | BindingType::Long
        | BindingType::ULong => (Some(8u64), seen),
        BindingType::Qualified { ty: inner, .. } => abi_size(pkg, *inner, seen),
        BindingType::Array(element, Some(len)) => {
            let (s, after) = abi_size(pkg, *element, seen);
            (
                match s {
                    Some(size) => Some(size.wrapping_mul(len)),
                    None => None,
                },
                after,
            )
        },
        BindingType::RecordRef(name) => (
            match layout_size_s(pkg.layouts@, seq!["struct "@ + name@, name@]) {
                Some(size) => Some(size),
                None => record_size(pkg, name@),
            },
            seen,
        ),
        BindingType::EnumRef(name) => (
            match layout_size_s(pkg.layouts@, seq!["enum "@ + name@, name@]) {
                Some(size) => Some(size),
                None => enum_size(pkg, name@),
            },
            seen,
        ),
        BindingType::Opaque(name) => (layout_size_s(pkg.layouts@, seq![name@]), seen),
        BindingType::TypedefRef(name) => {
            if seen.contains(name@) {
                (None, seen)
            } else {
                match alias_named(pkg, name@) {
                    None => (None, seen),
                    Some(alias) => {
                        let seen1 = seen.push(name@);
                        proof {
                            lemma_unseen_push(pkg.items@, seen, name@);
                        }
                        match layout_size_s(pkg.layouts@, typedef_layout_names(alias)) {
                            Some(size) => (Some(size), seen1),
                            None => {
                                let (t, seen2) = match alias.canonical_resolution {
                                    Some(res) => abi_size(pkg, res.terminal_target, seen1),
                                    None => (None, seen1),
                                };
                                match t {
                                    Some(size) => (Some(size), seen2),
                                    None => if unseen_aliases(pkg.items@, seen2) < unseen_aliases(pkg.items@, seen) {
                                        abi_size(pkg, alias.target, seen2)
                                    } else {
                                        (None, seen2)
                                    },
                                }
                            },
                        }
                    },
                }
            }
        },
        _ => (None, seen),
    }
}

/// Expected ABI size of a type, visiting from no alias.
pub open spec fn expected_size(pkg: BindingPackage, ty: BindingType) -> Option<u64> {
    abi_size(pkg, ty, seq![]).0
}

/// The visited aliases only grow.
proof fn lemma_abi_size_grows(pkg: BindingPackage, ty: BindingType, seen: Seq<Seq<char>>)
    ensures
        forall|x: Seq<char>| seen.contains(x) ==> abi_size(pkg, ty, seen).1.contains(x),
    decreases unseen_aliases(pkg.items@, seen), ty,
{
    match ty {
        BindingType::Qualified { ty: inner, .. } => {
            lemma_abi_size_grows(pkg, *inner, seen);
        },
        BindingType::Array(element, Some(len)) => {
            lemma_abi_size_grows(pkg, *element, seen);
        },
        BindingType::TypedefRef(name) => {
            if !seen.contains(name@) {
                match alias_named(pkg, name@) {
                    None => {},
                    Some(alias) => {
                        let seen1 = seen.push(name@);
                        lemma_alias_named_some(pkg, name@);
                        lemma_unseen_push(pkg.items@, seen, name@);
                        assert forall|x: Seq<char>| seen.contains(x) implies seen1.contains(x) by {
                            let k = choose|k: int| 0 <= k < seen.len() && seen[k] == x;
                            assert(seen1[k] == x);
                        }
                        match alias.canonical_resolution {
                            Some(res) => {
                                lemma_abi_size_grows(pkg, res.terminal_target, seen1);
                                let seen2 = abi_size(pkg, res.terminal_target, seen1).1;
                                if unseen_aliases(pkg.items@, seen2) < unseen_aliases(pkg.items@, seen) {
                                    lemma_abi_size_grows(pkg, alias.target, seen2);
                                }
                            },
                            None => {
                                if unseen_aliases(pkg.items@, seen1) < unseen_aliases(pkg.items@, seen) {
                                    lemma_abi_size_grows(pkg, alias.target, seen1);
                                }
                            },
                        }
                    },
                }
            }
        },
        _ => {},
    }
}

proof fn lemma_alias_named_some(pkg: BindingPackage, name: Seq<char>)
    ensures
        alias_named(pkg, name) is Some ==> first_named(pkg.items@, BindingItemKind::TypeAlias, name) is Some,
{
}

/// Size of the first layout of the package named by one of `names`.
fn find_layout_size(package: &BindingPackage, names: &Vec<String>) -> (r: Option<u64>)
    ensures
        r == layout_size_s(package.layouts@, strs(names@)),
{
    let mut i: usize = 0;
    while i < package.layouts.len()
        invariant
            i <= package.layouts@.len(),
            layout_size_s(package.layouts@, strs(names@)) == layout_from(package.layouts@, strs(names@), i as int),
        decreases package.layouts@.len() - i,
    {
        let layout = &package.layouts[i];
        let mut j: usize = 0;
        while j < names.len()
            invariant
                j <= names@.len(),
                i < package.layouts@.len(),
                *layout == package.layouts@[i as int],
                layout_size_s(package.layouts@, strs(names@)) == layout_from(package.layouts@, strs(names@), i as int),
                forall|k: int| 0 <= k < j ==> strs(names@)[k] != layout.name@,
            decreases names@.len() - j,
        {
            if str_eq(layout.name.as_str(), names[j].as_str()) {
                assert(strs(names@)[j as int] == layout.name@);
                return Some(layout.size);
            }
            j = j + 1;
        }
        assert(!strs(names@).contains(layout.name@));
        i = i + 1;
    }
    None
}

/// `prefix` followed by `name`, as a string.
fn prefixed(prefix: &str, name: &String) -> (r: String)
    ensures
        r@ == prefix@ + name@,
{
    string_of(&concat_chars(&chars_of(prefix), &chars_of(name.as_str())))
}

/// Expected ABI size of `ty` in `package`, visiting from no alias.
fn expected_abi_size(package: &BindingPackage, ty: &BindingType) -> (r: Option<u64>)
    ensures
        r == expected_size(*package, *ty),
{
    let mut seen: Vec<String> = Vec::new();
    assert(strs(seen@) =~= seq![]);
    expected_abi_size_inner(package, ty, &mut seen)
}

fn expected_abi_size_inner(package: &BindingPackage, ty: &BindingType, seen_aliases: &mut Vec<String>) -> (r: Option<u64>)
    ensures
        (r, strs(final(seen_aliases)@)) == abi_size(*package, *ty, strs(old(seen_aliases)@)),
    decreases unseen_aliases(package.items@, strs(old(seen_aliases)@)), ty,
{
    let ghost seen0 = strs(seen_aliases@);
    match ty {
        BindingType::Bool | BindingType::Char | BindingType::SChar | BindingType::UChar => Some(1),
        BindingType::Short | BindingType::UShort => Some(2),
        BindingType::Int | BindingType::UInt | BindingType::Float => Some(4),
        BindingType::LongLong | BindingType::ULongLong | BindingType::Double => Some(8),
        BindingType::Long | BindingType::ULong => Some(8),
        BindingType::Qualified { ty: inner, .. } => expected_abi_size_inner(package, inner, seen_aliases),
        BindingType::Array(element, Some(len)) => {
            match expected_abi_size_inner(package, element, seen_aliases) {
                Some(size) => Some(size.wrapping_mul(*len)),
                None => None,
            }
        },
        BindingType::RecordRef(name) => {
            let qualified = prefixed("struct ", name);
            let names = vec![qualified, name.clone()];
            assert(strs(names@) =~= seq!["struct "@ + name@, name@]);
            match find_layout_size(package, &names) {
                Some(size) => Some(size),
                None => match package.find_record(name.as_str()) {
                    Some(record) => match &record.representation {
                        Some(rep) => rep.size,
                        None => None,
                    },
                    None => None,
                },
            }
        },
        BindingType::EnumRef(name) => {
            let qualified = prefixed("enum ", name);
            let names = vec![qualified, name.clone()];
            assert(strs(names@) =~= seq!["enum "@ + name@, name@]);
            match find_layout_size(package, &names) {
                Some(size) => Some(size),
                None => match package.find_enum(name.as_str()) {
                    Some(item) => match &item.representation {
                        Some(rep) => rep.underlying_size,
                        None => None,
                    },
                    None => None,
                },
            }
        },
        BindingType::Opaque(name) => {
            let names = vec![name.clone()];
            assert(strs(names@) =~= seq![name@]);
            find_layout_size(package, &names)
        },
        BindingType::TypedefRef(name) => {
            if seen_contains(seen_aliases, name) {
                return None;
            }
            let alias = match package.find_type_alias(name.as_str()) {
                Some(alias) => alias,
                None => {
                    return None;
                },
            };
            proof {
                lemma_alias_named_some(*package, name@);
                lemma_unseen_push(package.items@, seen0, name@);
            }
            seen_aliases.push(name.clone());
            assert(strs(seen_aliases@) =~= seen0.push(name@));
            let ghost seen1 = strs(seen_aliases@);
            let names = typedef_names(alias);
            match find_layout_size(package, &names) {
                Some(size) => {
                    return Some(size);
                },
                None => {},
            }
            let t = match &alias.canonical_resolution {
                Some(resolution) => expected_abi_size_inner(package, &resolution.terminal_target, seen_aliases),
                None => None,
            };
            match t {
                Some(size) => Some(size),
                None => {
                    proof {
                        let seen2 = strs(seen_aliases@);
                        if alias.canonical_resolution is Some {
                            lemma_abi_size_grows(*package, alias.canonical_resolution->0.terminal_target, seen1);
                        }
                        assert forall|x: Seq<char>| seen1.contains(x) implies seen2.contains(x) by {}
                        lemma_unseen_mono(package.items@, seen1, seen2);
                    }
                    expected_abi_size_inner(package, &alias.target, seen_aliases)
                },
            }
        },
        _ => None,
    }
}

/// Whether `name` was already visited.
fn seen_contains(seen: &Vec<String>, name: &String) -> (r: bool)
    ensures
        r == strs(seen@).contains(name@),
{
    let mut i: usize = 0;
    while i < seen.len()
        invariant
            i <= seen@.len(),
            forall|k: int| 0 <= k < i ==> strs(seen@)[k] != name@,
        decreases seen@.len() - i,
    {
        if str_eq(seen[i].as_str(), name.as_str()) {
            assert(strs(seen@)[i as int] == name@);
            return true;
        }
        i = i + 1;
    }
    false
}

/// Layout names of a typedef: its name, then its resolved alias chain.
fn typedef_names(alias: &TypeAliasBinding) -> (r: Vec<String>)
    ensures
        strs(r@) == typedef_layout_names(*alias),
{
    let mut names: Vec<String> = vec![alias.name.clone()];
    match &alias.canonical_resolution {
        Some(resolution) => {
            let mut i: usize = 0;
            while i < resolution.alias_chain.len()
                invariant
                    i <= resolution.alias_chain@.len(),
                    strs(names@) == seq![alias.name@] + strs(resolution.alias_chain@.subrange(0, i as int)),
                decreases resolution.alias_chain@.len() - i,
            {
                let ghost before = names@;
                names.push(resolution.alias_chain[i].clone());
                assert(strs(names@) =~= strs(before).push(resolution.alias_chain@[i as int]@));
                assert(strs(resolution.alias_chain@.subrange(0, i + 1)) =~= strs(
                    resolution.alias_chain@.subrange(0, i as int),
                ).push(resolution.alias_chain@[i as int]@));
                i = i + 1;
                assert(strs(names@) =~= seq![alias.name@] + strs(resolution.alias_chain@.subrange(0, i as int)));
            }
            assert(resolution.alias_chain@.subrange(0, i as int) =~= resolution.alias_chain@);
        },
        None => {
            assert(strs(names@) =~= typedef_layout_names(*alias));
        },
    }
    names
}

// ---------------------------------------------------------------------------
// Names and providers
// ---------------------------------------------------------------------------

/// A raw symbol name without one leading `_` and without the first `@` and what follows.
pub open spec fn normalized_name(raw: Seq<char>) -> Seq<char> {
    let a = if raw.len() > 0 && raw[0] == '_' {
        raw.subrange(1, raw.len() as int)
    } else {
        raw
    };
    match find_char_s(a, '@') {
        Some(i) => a.subrange(0, i),
        None => a,
    }
}

/// Strips a leading `_` and an `@N` stdcall-style suffix from a raw symbol name.
pub fn normalize_decorated_name(raw_name: &str) -> (r: String)
    ensures
        r@ == normalized_name(raw_name@),
{
    let v = chars_of(raw_name);
    let start: usize = if v.len() > 0 && v[0] == '_' {
        1
    } else {
        0
    };
    let mut i = start;
    while i < v.len() && v[i] != '@'
        invariant
            start <= i <= v@.len(),
            start <= 1,
            start == 1 <==> (v@.len() > 0 && v@[0] == '_'),
            forall|k: int| start <= k < i ==> v@[k] != '@',
        decreases v@.len() - i,
    {
        i = i + 1;
    }
    proof {
        let a = if v@.len() > 0 && v@[0] == '_' {
            v@.subrange(1, v@.len() as int)
        } else {
            v@
        };
        assert(a =~= v@.subrange(start as int, v@.len() as int));
        lemma_find_char_first(a, '@', i - start);
        assert(a.subrange(0, i - start) =~= v@.subrange(start as int, i as int));
    }
    string_of_range(&v, start, i)
}

/// `find_char_s` finds the first occurrence.
proof fn lemma_find_char_first(a: Seq<char>, c: char, n: int)
    requires
        0 <= n <= a.len(),
        forall|k: int| 0 <= k < n ==> a[k] != c,
        n < a.len() ==> a[n] == c,
    ensures
        n < a.len() ==> find_char_s(a, c) == Some(n),
        n == a.len() ==> find_char_s(a, c) is None && a.subrange(0, n) == a,
{
    crate::text::lemma_find_char_scan(a, c, n);
    assert(a.subrange(0, a.len() as int) =~= a);
}

/// A raw name after one optional leading `_`.
pub open spec fn without_leading_underscore(raw: Seq<char>) -> Seq<char> {
    if raw.len() > 0 && raw[0] == '_' {
        raw.drop_first()
    } else {
        raw
    }
}

/// The normalized name is the longest prefix free of `@` of the raw name after one
/// optional leading `_`: it holds no `@`, the rest of the raw name follows it, and that
/// rest is either empty or starts at an `@`.
pub proof fn lemma_normalized_name_drops_decoration(raw: Seq<char>)
    ensures
        ({
            let a = without_leading_underscore(raw);
            let n = normalized_name(raw);
            &&& !n.contains('@')
            &&& n.len() <= a.len()
            &&& n == a.subrange(0, n.len() as int)
            &&& n.len() < a.len() ==> a[n.len() as int] == '@'
        }),
{
    let a = without_leading_underscore(raw);
    let b = if raw.len() > 0 && raw[0] == '_' {
        raw.subrange(1, raw.len() as int)
    } else {
        raw
    };
    assert(a =~= b);
    crate::text::lemma_find_from_some(a, seq!['@'], 0);
    match find_char_s(a, '@') {
        Some(i) => {
            assert(a.subrange(i, i + 1)[0] == a[i]);
            assert forall|k: int| 0 <= k < i implies a[k] != '@' by {
                if a[k] == '@' {
                    assert(a.subrange(k, k + 1) =~= seq!['@']);
                    assert(crate::text::occurs_at(a, seq!['@'], k));
                }
            }
            let n = a.subrange(0, i);
            assert(n.subrange(0, n.len() as int) =~= n);
            assert(!n.contains('@')) by {
                if n.contains('@') {
                    let k = choose|k: int| 0 <= k < n.len() && n[k] == '@';
                    assert(a[k] == '@');
                }
            }
        },
        None => {
            assert forall|k: int| 0 <= k < a.len() implies a[k] != '@' by {
                if a[k] == '@' {
                    assert(a.subrange(k, k + 1) =~= seq!['@']);
                    assert(crate::text::occurs_at(a, seq!['@'], k));
                }
            }
            assert(a.subrange(0, a.len() as int) =~= a);
        },
    }
}

/// A stdcall-style name `_` + `n` + `@` + `d`, with `n` free of `@`, normalizes to `n`.
pub proof fn lemma_normalized_stdcall_name(n: Seq<char>, d: Seq<char>)
    requires
        !n.contains('@'),
    ensures
        normalized_name(seq!['_'] + n + seq!['@'] + d) == n,
{
    let raw = seq!['_'] + n + seq!['@'] + d;
    lemma_normalized_name_drops_decoration(raw);
    let a = without_leading_underscore(raw);
    assert(a =~= n + seq!['@'] + d);
    let m = normalized_name(raw);
    assert(a[n.len() as int] == '@');
    if m.len() < n.len() {
        assert(a[m.len() as int] == n[m.len() as int]);
    } else if m.len() > n.len() {
        assert(m[n.len() as int] == a[n.len() as int]);
    }
    assert(m.len() == n.len());
    assert(m =~= n) by {
        assert forall|k: int| 0 <= k < n.len() implies m[k] == n[k] by {
            assert(m[k] == a[k]);
        }
    }
}

/// Provider label: the artifact path, with `:member` for an archive member.
pub open spec fn provider_label(path: Seq<char>, s: SymbolEntry) -> Seq<char> {
    match s.archive_member {
        Some(m) => path + ":"@ + m@,
        None => path,
    }
}

fn format_provider(inventory: &SymbolInventory, symbol: &SymbolEntry) -> (r: String)
    ensures
        r@ == provider_label(inventory.artifact_path@, *symbol),
{
    match &symbol.archive_member {
        Some(member) => {
            let a = concat_chars(&chars_of(inventory.artifact_path.as_str()), &chars_of(":"));
            string_of(&concat_chars(&a, &chars_of(member.as_str())))
        },
        None => inventory.artifact_path.clone(),
    }
}

/// The package declares some native link input.
pub open spec fn declares_link_inputs(pkg: BindingPackage) -> bool {
    pkg.link.libraries@.len() > 0 || pkg.link.frameworks@.len() > 0
        || pkg.link.artifacts@.len() > 0 || pkg.link.ordered_inputs@.len() > 0
}

fn has_declared_link_inputs(package: &BindingPackage) -> (r: bool)
    ensures
        r == declares_link_inputs(*package),
{
    package.link.libraries.len() > 0 || package.link.frameworks.len() > 0
        || package.link.artifacts.len() > 0 || package.link.ordered_inputs.len() > 0
}

// ---------------------------------------------------------------------------
// Model of one declaration's validation
// ---------------------------------------------------------------------------

/// Which symbols are candidates for a declaration name.
#[derive(Debug, Clone, Copy, PartialEq, Eq, Structural)]
pub enum CandidateKind {
    /// Exported under the declaration's name.
    Exported,
    /// Imported under the declaration's name.
    Imported,
    /// Under another name whose raw spelling normalizes to the declaration's name.
    Decorated,
}

pub open spec fn is_candidate(k: CandidateKind, name: Seq<char>, s: SymbolEntry) -> bool {
    match k {
        CandidateKind::Exported => s.name@ == name && s.direction == SymbolDirection::Exported,
        CandidateKind::Imported => s.name@ == name && s.direction == SymbolDirection::Imported,
        CandidateKind::Decorated => (s.raw_name matches Some(r) && normalized_name(r@) == name)
            && s.name@ != name,
    }
}

/// Candidates among `syms` of inventory `inv`, labelled with their provider.
pub open spec fn inventory_candidates(
    inv: SymbolInventory,
    syms: Seq<SymbolEntry>,
    k: CandidateKind,
    name: Seq<char>,
) -> Seq<(Seq<char>, SymbolEntry)>
    decreases syms.len(),
{
    if syms.len() == 0 {
        seq![]
    } else {
        let rest = inventory_candidates(inv, syms.drop_last(), k, name);
        if is_candidate(k, name, syms.last()) {
            rest.push((provider_label(inv.artifact_path@, syms.last()), syms.last()))
        } else {
            rest
        }
    }
}

/// Candidates across inventories, in inventory then symbol order.
pub open spec fn candidates(invs: Seq<SymbolInventory>, k: CandidateKind, name: Seq<char>) -> Seq<(Seq<char>, SymbolEntry)>
    decreases invs.len(),
{
    if invs.len() == 0 {
        seq![]
    } else {
        candidates(invs.drop_last(), k, name) + inventory_candidates(
            invs.last(),
            invs.last().symbols@,
            k,
            name,
        )
    }
}

proof fn lemma_inventory_candidates_nonempty(
    inv: SymbolInventory,
    syms: Seq<SymbolEntry>,
    k: CandidateKind,
    name: Seq<char>,
)
    ensures
        inventory_candidates(inv, syms, k, name).len() > 0 <==> exists|j: int|
            0 <= j < syms.len() && is_candidate(k, name, #[trigger] syms[j]),
    decreases syms.len(),
{
    if syms.len() > 0 {
        let p = syms.drop_last();
        lemma_inventory_candidates_nonempty(inv, p, k, name);
        if exists|j: int| 0 <= j < syms.len() && is_candidate(k, name, #[trigger] syms[j]) {
            let j = choose|j: int| 0 <= j < syms.len() && is_candidate(k, name, #[trigger] syms[j]);
            if j < syms.len() - 1 {
                assert(p[j] == syms[j]);
            }
        }
        if exists|j: int| 0 <= j < p.len() && is_candidate(k, name, #[trigger] p[j]) {
            let j = choose|j: int| 0 <= j < p.len() && is_candidate(k, name, #[trigger] p[j]);
            assert(syms[j] == p[j]);
        }
        if is_candidate(k, name, syms.last()) {
            assert(syms[syms.len() - 1] == syms.last());
        }
    }
}

/// There are candidates of a kind exactly when some symbol of some inventory is one.
proof fn lemma_candidates_nonempty(invs: Seq<SymbolInventory>, k: CandidateKind, name: Seq<char>)
    ensures
        candidates(invs, k, name).len() > 0 <==> exists|i: int, j: int|
            0 <= i < invs.len() && 0 <= j < invs[i].symbols@.len() && is_candidate(
                k,
                name,
                #[trigger] invs[i].symbols@[j],
            ),
    decreases invs.len(),
{
    if invs.len() > 0 {
        let p = invs.drop_last();
        let last = invs.last();
        lemma_candidates_nonempty(p, k, name);
        lemma_inventory_candidates_nonempty(last, last.symbols@, k, name);
        if exists|i: int, j: int|
            0 <= i < invs.len() && 0 <= j < invs[i].symbols@.len() && is_candidate(
                k,
                name,
                #[trigger] invs[i].symbols@[j],
            ) {
            let (i, j) = choose|i: int, j: int|
                0 <= i < invs.len() && 0 <= j < invs[i].symbols@.len() && is_candidate(
                    k,
                    name,
                    #[trigger] invs[i].symbols@[j],
                );
            if i < invs.len() - 1 {
                assert(p[i] == invs[i]);
                assert(is_candidate(k, name, p[i].symbols@[j]));
            } else {
                assert(is_candidate(k, name, last.symbols@[j]));
            }
        }
        if exists|i: int, j: int|
            0 <= i < p.len() && 0 <= j < p[i].symbols@.len() && is_candidate(
                k,
                name,
                #[trigger] p[i].symbols@[j],
            ) {
            let (i, j) = choose|i: int, j: int|
                0 <= i < p.len() && 0 <= j < p[i].symbols@.len() && is_candidate(
                    k,
                    name,
                    #[trigger] p[i].symbols@[j],
                );
            assert(invs[i] == p[i]);
            assert(is_candidate(k, name, invs[i].symbols@[j]));
        }
        if exists|j: int| 0 <= j < last.symbols@.len() && is_candidate(k, name, #[trigger] last.symbols@[j]) {
            let j = choose|j: int| 0 <= j < last.symbols@.len() && is_candidate(k, name, #[trigger] last.symbols@[j]);
            assert(invs[invs.len() - 1] == last);
            assert(is_candidate(k, name, invs[invs.len() - 1].symbols@[j]));
        }
    }
}

/// A declaration that no inventory exports under its own name, but that some
/// inventory holds under another name whose raw spelling normalizes to it (such as
/// the stdcall-decorated `_foo@8` for `foo`), is reported as a decoration mismatch.
pub proof fn lemma_decorated_only_is_decoration_mismatch(
    pkg: BindingPackage,
    invs: Seq<SymbolInventory>,
    item: BindingItem,
    i: int,
    j: int,
)
    requires
        is_validated(item),
        forall|a: int, b: int|
            0 <= a < invs.len() && 0 <= b < invs[a].symbols@.len() ==> !(
            #[trigger] invs[a].symbols@[b].name@ == decl_name(item) && invs[a].symbols@[b].direction
                == SymbolDirection::Exported),
        0 <= i < invs.len(),
        0 <= j < invs[i].symbols@.len(),
        invs[i].symbols@[j].raw_name matches Some(r) && normalized_name(r@) == decl_name(item),
        invs[i].symbols@[j].name@ != decl_name(item),
    ensures
        item_status(pkg, invs, item) == MatchStatus::DecorationMismatch,
{
    let name = decl_name(item);
    lemma_candidates_nonempty(invs, CandidateKind::Exported, name);
    lemma_candidates_nonempty(invs, CandidateKind::Decorated, name);
    assert(is_candidate(CandidateKind::Decorated, name, invs[i].symbols@[j]));
    if exported_of(invs, item).len() > 0 {
        let (a, b) = choose|a: int, b: int|
            0 <= a < invs.len() && 0 <= b < invs[a].symbols@.len() && is_candidate(
                CandidateKind::Exported,
                name,
                #[trigger] invs[a].symbols@[b],
            );
        assert(false);
    }
}

pub open spec fn visible(s: SymbolEntry) -> bool {
    s.visibility != SymbolVisibility::Hidden && s.visibility != SymbolVisibility::Internal
}

/// Visible and of the expected kind (function or data).
pub open spec fn typed(s: SymbolEntry, expect_function: bool) -> bool {
    visible(s) && s.is_function == expect_function
}

pub open spec fn first_visible_from(c: Seq<(Seq<char>, SymbolEntry)>, i: int) -> Option<int>
    decreases c.len() - i,
{
    if i < 0 || i >= c.len() {
        None
    } else if visible(c[i].1) {
        Some(i)
    } else {
        first_visible_from(c, i + 1)
    }
}

pub open spec fn first_typed_from(c: Seq<(Seq<char>, SymbolEntry)>, expect: bool, i: int) -> Option<int>
    decreases c.len() - i,
{
    if i < 0 || i >= c.len() {
        None
    } else if typed(c[i].1, expect) {
        Some(i)
    } else {
        first_typed_from(c, expect, i + 1)
    }
}

/// Two typed candidates come from different providers.
pub open spec fn providers_differ(c: Seq<(Seq<char>, SymbolEntry)>, expect: bool) -> bool {
    exists|i: int, j: int|
        #![trigger c[i], c[j]]
        0 <= i < c.len() && 0 <= j < c.len() && typed(c[i].1, expect) && typed(c[j].1, expect)
            && c[i].0 != c[j].0
}

/// Status and visibility from the exported candidates, before ABI evidence.
pub open spec fn base_status(
    c: Seq<(Seq<char>, SymbolEntry)>,
    decorated: bool,
    declared: bool,
    expect: bool,
) -> (MatchStatus, Option<SymbolVisibility>) {
    if c.len() > 0 {
        match first_visible_from(c, 0) {
            None => (MatchStatus::Hidden, Some(c[0].1.visibility)),
            Some(v) => match first_typed_from(c, expect, 0) {
                None => (
                    if expect {
                        MatchStatus::NotAFunction
                    } else {
                        MatchStatus::NotAVariable
                    },
                    Some(c[v].1.visibility),
                ),
                Some(t) => if providers_differ(c, expect) {
                    (MatchStatus::DuplicateProviders, Some(c[t].1.visibility))
                } else if c[t].1.binding == SymbolBinding::Weak {
                    (MatchStatus::WeakMatch, Some(c[t].1.visibility))
                } else {
                    (MatchStatus::Matched, Some(c[t].1.visibility))
                },
            },
        }
    } else {
        (
            if decorated {
                MatchStatus::DecorationMismatch
            } else if declared {
                MatchStatus::UnresolvedDeclaredLinkInputs
            } else {
                MatchStatus::Missing
            },
            None,
        )
    }
}

/// Raw spellings of candidates, where they have one.
pub open spec fn raw_names(c: Seq<(Seq<char>, SymbolEntry)>) -> Seq<Seq<char>>
    decreases c.len(),
{
    if c.len() == 0 {
        seq![]
    } else {
        raw_names(c.drop_last()) + match c.last().1.raw_name {
            Some(r) => seq![r@],
            None => seq![],
        }
    }
}

pub open spec fn labels(c: Seq<(Seq<char>, SymbolEntry)>) -> Seq<Seq<char>> {
    c.map_values(|x: (Seq<char>, SymbolEntry)| x.0)
}

/// Expected sizes of parameter types.
pub open spec fn expected_param_sizes(pkg: BindingPackage, ps: Seq<crate::ir::ParameterBinding>) -> Seq<Option<u64>> {
    ps.map_values(|p: crate::ir::ParameterBinding| expected_size(pkg, p.ty))
}

pub open spec fn any_some(s: Seq<Option<u64>>) -> bool {
    exists|k: int| 0 <= k < s.len() && (#[trigger] s[k]) is Some
}

/// Expected and observed parameter counts, when the observed hint has one.
pub open spec fn count_pair(expected: usize, obs: Option<FunctionAbiHint>) -> Option<(usize, usize)> {
    match obs {
        Some(o) => match o.parameter_count {
            Some(n) => Some((expected, n)),
            None => None,
        },
        None => None,
    }
}

/// Expected and observed return sizes, when both are known.
pub open spec fn return_pair(expected: Option<u64>, obs: Option<FunctionAbiHint>) -> Option<(u64, u64)> {
    match (expected, obs) {
        (Some(e), Some(o)) => match o.return_size {
            Some(x) => Some((e, x)),
            None => None,
        },
        _ => None,
    }
}

/// Parameter sizes are compared when both lists are non-empty, of equal length, and
/// each knows some size.
pub open spec fn sizes_compared(expected: Seq<Option<u64>>, obs: Option<FunctionAbiHint>) -> bool {
    match obs {
        Some(o) => expected.len() > 0 && expected.len() == o.parameter_sizes@.len() && any_some(
            expected,
        ) && any_some(o.parameter_sizes@),
        None => false,
    }
}

/// Some position where both sizes are known and differ.
pub open spec fn sizes_differ(e: Seq<Option<u64>>, o: Seq<Option<u64>>) -> bool {
    exists|k: int|
        0 <= k < e.len() && k < o.len() && (#[trigger] e[k]) is Some && o[k] is Some && e[k] != o[k]
}

/// The observed parameter sizes of a hint (none without a hint).
pub open spec fn observed_sizes(obs: Option<FunctionAbiHint>) -> Seq<Option<u64>> {
    match obs {
        Some(o) => o.parameter_sizes@,
        None => seq![],
    }
}

/// Routine evidence by its values: kind, confidence, parameter counts, return sizes and
/// parameter sizes (expected, then observed).
pub open spec fn routine_view(r: RoutineAbiEvidence) -> (
    Option<RoutineAbiEvidenceKind>,
    Option<RoutineAbiConfidence>,
    Option<usize>,
    Option<usize>,
    Option<u64>,
    Option<u64>,
    Seq<Option<u64>>,
    Seq<Option<u64>>,
) {
    (
        r.evidence_kind,
        r.confidence,
        r.expected_parameter_count,
        r.observed_parameter_count,
        r.expected_return_size,
        r.observed_return_size,
        r.expected_parameter_sizes@,
        r.observed_parameter_sizes@,
    )
}

/// Routine ABI evidence of a function: present when a parameter count, a return size
/// or parameter sizes can be compared.
pub open spec fn spec_routine(
    exp_count: usize,
    exp_ret: Option<u64>,
    exp_sizes: Seq<Option<u64>>,
    obs: Option<FunctionAbiHint>,
) -> Option<(
    Option<RoutineAbiEvidenceKind>,
    Option<RoutineAbiConfidence>,
    Option<usize>,
    Option<usize>,
    Option<u64>,
    Option<u64>,
    Seq<Option<u64>>,
    Seq<Option<u64>>,
)> {
    let pc = count_pair(exp_count, obs);
    let rs = return_pair(exp_ret, obs);
    let ps = sizes_compared(exp_sizes, obs);
    if pc is None && rs is None && !ps {
        None
    } else {
        let mismatch = (pc matches Some(p) && p.0 != p.1) || (rs matches Some(q) && q.0 != q.1) || (
        ps && sizes_differ(exp_sizes, observed_sizes(obs)));
        let kind = if mismatch {
            RoutineAbiEvidenceKind::Mismatch
        } else if pc is Some && rs is None && !ps {
            RoutineAbiEvidenceKind::ParameterCountOnly
        } else if pc is None && rs is Some && !ps {
            RoutineAbiEvidenceKind::ReturnShapeOnly
        } else if pc is None && rs is None && ps {
            RoutineAbiEvidenceKind::ParameterShapesOnly
        } else if pc is Some && rs is Some && !ps {
            RoutineAbiEvidenceKind::ParameterCountAndReturnShape
        } else if pc is Some && rs is None && ps {
            RoutineAbiEvidenceKind::ParameterCountAndParameterShapes
        } else if pc is None && rs is Some && ps {
            RoutineAbiEvidenceKind::ReturnShapeAndParameterShapes
        } else {
            RoutineAbiEvidenceKind::FullyShaped
        };
        let confidence = if mismatch {
            RoutineAbiConfidence::Mismatch
        } else if ps || (pc is Some && rs is Some) {
            RoutineAbiConfidence::Strong
        } else {
            RoutineAbiConfidence::Partial
        };
        Some(
            (
                Some(kind),
                Some(confidence),
                match pc {
                    Some(p) => Some(p.0),
                    None => None,
                },
                match pc {
                    Some(p) => Some(p.1),
                    None => None,
                },
                match rs {
                    Some(q) => Some(q.0),
                    None => None,
                },
                match rs {
                    Some(q) => Some(q.1),
                    None => None,
                },
                if ps {
                    exp_sizes
                } else {
                    seq![]
                },
                if ps {
                    observed_sizes(obs)
                } else {
                    seq![]
                },
            ),
        )
    }
}

/// Confidence attached to a final status.
pub open spec fn confidence_for(s: MatchStatus) -> MatchConfidence {
    match s {
        MatchStatus::Matched => MatchConfidence::High,
        MatchStatus::WeakMatch => MatchConfidence::Medium,
        MatchStatus::Missing => MatchConfidence::NoConfidence,
        _ => MatchConfidence::Low,
    }
}

/// Some imported candidate is re-exported through another artifact.
pub open spec fn reexported(im: Seq<(Seq<char>, SymbolEntry)>) -> bool {
    exists|k: int| 0 <= k < im.len() && (#[trigger] im[k]).1.reexported_via@.len() > 0
}

/// Some inventory has dynamic dependencies.
pub open spec fn has_dependencies(invs: Seq<SymbolInventory>) -> bool {
    exists|k: int| 0 <= k < invs.len() && (#[trigger] invs[k]).dependency_edges@.len() > 0
}

/// Evidence kind of a final status.
pub open spec fn evidence_for(
    s: MatchStatus,
    abi: bool,
    im: Seq<(Seq<char>, SymbolEntry)>,
    invs: Seq<SymbolInventory>,
) -> EvidenceKind {
    match s {
        MatchStatus::Matched => if abi {
            EvidenceKind::AbiShapeVerified
        } else {
            EvidenceKind::ExactExported
        },
        MatchStatus::AbiShapeMismatch => EvidenceKind::AbiShapeMismatch,
        MatchStatus::WeakMatch => EvidenceKind::WeakExported,
        MatchStatus::Hidden => EvidenceKind::HiddenProvider,
        MatchStatus::DecorationMismatch => EvidenceKind::DecoratedCandidate,
        MatchStatus::DuplicateProviders => EvidenceKind::DuplicateVisibleProviders,
        MatchStatus::UnresolvedDeclaredLinkInputs => if reexported(im) || has_dependencies(invs) {
            EvidenceKind::ReexportedCandidate
        } else {
            EvidenceKind::DeclaredLinkInputsWithoutProvider
        },
        MatchStatus::Missing => if reexported(im) {
            EvidenceKind::ReexportedCandidate
        } else {
            EvidenceKind::MissingProvider
        },
        MatchStatus::NotAFunction | MatchStatus::NotAVariable => EvidenceKind::KindMismatch,
    }
}

/// Declarations that validation looks at: functions and variables.
pub open spec fn is_validated(item: BindingItem) -> bool {
    item is Function || item is Variable
}

pub open spec fn validated_pred() -> spec_fn(BindingItem) -> bool {
    |item: BindingItem| is_validated(item)
}

pub open spec fn decl_name(item: BindingItem) -> Seq<char> {
    match item {
        BindingItem::Function(f) => f.name@,
        BindingItem::Variable(v) => v.name@,
        _ => seq![],
    }
}

/// ABI shape evidence of a variable matched by its first candidate.
pub open spec fn variable_shape(pkg: BindingPackage, item: BindingItem, c: Seq<(Seq<char>, SymbolEntry)>) -> Option<AbiShapeEvidence> {
    match item {
        BindingItem::Variable(v) => match (expected_size(pkg, v.ty), c[0].1.size) {
            (Some(e), Some(o)) => Some(AbiShapeEvidence { expected_size: Some(e), observed_size: Some(o) }),
            _ => None,
        },
        _ => None,
    }
}

/// Routine evidence of a function matched by its first candidate.
pub open spec fn function_routine(pkg: BindingPackage, item: BindingItem, c: Seq<(Seq<char>, SymbolEntry)>) -> Option<(
    Option<RoutineAbiEvidenceKind>,
    Option<RoutineAbiConfidence>,
    Option<usize>,
    Option<usize>,
    Option<u64>,
    Option<u64>,
    Seq<Option<u64>>,
    Seq<Option<u64>>,
)> {
    match item {
        BindingItem::Function(f) => spec_routine(
            f.parameters@.len() as usize,
            expected_size(pkg, f.return_type),
            expected_param_sizes(pkg, f.parameters@),
            c[0].1.function_abi,
        ),
        _ => None,
    }
}

/// Exported candidates for a declaration.
pub open spec fn exported_of(invs: Seq<SymbolInventory>, item: BindingItem) -> Seq<(Seq<char>, SymbolEntry)> {
    candidates(invs, CandidateKind::Exported, decl_name(item))
}

/// Status and visibility before ABI evidence.
pub open spec fn item_base(pkg: BindingPackage, invs: Seq<SymbolInventory>, item: BindingItem) -> (MatchStatus, Option<SymbolVisibility>) {
    base_status(
        exported_of(invs, item),
        candidates(invs, CandidateKind::Decorated, decl_name(item)).len() > 0,
        declares_link_inputs(pkg),
        item is Function,
    )
}

/// ABI shape evidence: for a matched variable.
pub open spec fn item_shape(pkg: BindingPackage, invs: Seq<SymbolInventory>, item: BindingItem) -> Option<AbiShapeEvidence> {
    if item_base(pkg, invs, item).0 == MatchStatus::Matched && item is Variable {
        variable_shape(pkg, item, exported_of(invs, item))
    } else {
        None
    }
}

/// Routine evidence: for a matched function.
pub open spec fn item_routine(pkg: BindingPackage, invs: Seq<SymbolInventory>, item: BindingItem) -> Option<(
    Option<RoutineAbiEvidenceKind>,
    Option<RoutineAbiConfidence>,
    Option<usize>,
    Option<usize>,
    Option<u64>,
    Option<u64>,
    Seq<Option<u64>>,
    Seq<Option<u64>>,
)> {
    if item_base(pkg, invs, item).0 == MatchStatus::Matched && item is Function {
        function_routine(pkg, item, exported_of(invs, item))
    } else {
        None
    }
}

/// Final status: a matched declaration whose compared sizes or counts disagree is an
/// ABI shape mismatch.
pub open spec fn item_status(pkg: BindingPackage, invs: Seq<SymbolInventory>, item: BindingItem) -> MatchStatus {
    if item_shape(pkg, invs, item) matches Some(sh) && sh.expected_size != sh.observed_size {
        MatchStatus::AbiShapeMismatch
    } else if item_routine(pkg, invs, item) matches Some(rt) && rt.0 == Some(
        RoutineAbiEvidenceKind::Mismatch,
    ) {
        MatchStatus::AbiShapeMismatch
    } else {
        item_base(pkg, invs, item).0
    }
}

/// Some ABI evidence was compared for the declaration.
pub open spec fn abi_compared_for(pkg: BindingPackage, invs: Seq<SymbolInventory>, item: BindingItem) -> bool {
    item_shape(pkg, invs, item) is Some || item_routine(pkg, invs, item) is Some
}

/// The match and the entry that validation reports for one function or variable.
pub open spec fn validated_as(
    m: SymbolMatch,
    e: ValidationEntry,
    pkg: BindingPackage,
    invs: Seq<SymbolInventory>,
    item: BindingItem,
) -> bool {
    let name = decl_name(item);
    let kind = if item is Function {
        ItemKind::Function
    } else {
        ItemKind::Variable
    };
    let ex = exported_of(invs, item);
    let im = candidates(invs, CandidateKind::Imported, name);
    let de = candidates(invs, CandidateKind::Decorated, name);
    let vis = item_base(pkg, invs, item).1;
    let status = item_status(pkg, invs, item);
    let confidence = confidence_for(status);
    let evidence = evidence_for(status, abi_compared_for(pkg, invs, item), im, invs);
    &&& m.name@ == name && m.item_kind == kind && m.status == status && m.visibility == vis
    &&& strs(m.provider_artifacts@) == labels(ex)
    &&& m.confidence == confidence && m.evidence_kind == evidence
    &&& e.declaration.name@ == name && e.declaration.item_kind == kind && e.status == status
    &&& strs(e.evidence.provider_artifacts@) == labels(ex)
    &&& strs(e.evidence.raw_symbol_names@) == raw_names(ex + im + de)
    &&& e.evidence.visibility == vis && e.evidence.confidence == confidence
    &&& e.evidence.evidence_kind == evidence
    &&& e.evidence.abi_shape == item_shape(pkg, invs, item)
    &&& match e.evidence.routine_abi {
        Some(r) => item_routine(pkg, invs, item) == Some(routine_view(r)),
        None => item_routine(pkg, invs, item) is None,
    }
}

// ---------------------------------------------------------------------------
// Validation
// ---------------------------------------------------------------------------

/// Candidates by their values.
pub open spec fn cands_view(v: Seq<(String, &SymbolEntry)>) -> Seq<(Seq<char>, SymbolEntry)> {
    v.map_values(|c: (String, &SymbolEntry)| (c.0@, *c.1))
}

fn is_candidate_exec(k: CandidateKind, name: &String, s: &SymbolEntry) -> (r: bool)
    ensures
        r == is_candidate(k, name@, *s),
{
    match k {
        CandidateKind::Exported => str_eq(s.name.as_str(), name.as_str()) && s.direction
            == SymbolDirection::Exported,
        CandidateKind::Imported => str_eq(s.name.as_str(), name.as_str()) && s.direction
            == SymbolDirection::Imported,
        CandidateKind::Decorated => match &s.raw_name {
            Some(raw) => {
                let n = normalize_decorated_name(raw.as_str());
                str_eq(n.as_str(), name.as_str()) && !str_eq(s.name.as_str(), name.as_str())
            },
            None => false,
        },
    }
}

/// Candidates of kind `k` for `name` across the inventories, with their provider labels.
fn collect_candidates<'a>(inventories: &'a [SymbolInventory], k: CandidateKind, name: &String) -> (r: Vec<(String, &'a SymbolEntry)>)
    ensures
        cands_view(r@) == candidates(inventories@, k, name@),
{
    let mut r: Vec<(String, &'a SymbolEntry)> = Vec::new();
    let mut i: usize = 0;
    while i < inventories.len()
        invariant
            i <= inventories@.len(),
            cands_view(r@) == candidates(inventories@.subrange(0, i as int), k, name@),
        decreases inventories@.len() - i,
    {
        let inv = &inventories[i];
        let ghost done = cands_view(r@);
        let mut j: usize = 0;
        while j < inv.symbols.len()
            invariant
                j <= inv.symbols@.len(),
                *inv == inventories@[i as int],
                cands_view(r@) == done + inventory_candidates(*inv, inv.symbols@.subrange(0, j as int), k, name@),
            decreases inv.symbols@.len() - j,
        {
            let sym = &inv.symbols[j];
            let ghost before = cands_view(r@);
            proof {
                assert(inv.symbols@.subrange(0, j + 1).drop_last() =~= inv.symbols@.subrange(0, j as int));
                assert(inv.symbols@.subrange(0, j + 1).last() == *sym);
            }
            if is_candidate_exec(k, name, sym) {
                let label = format_provider(inv, sym);
                r.push((label, sym));
                assert(cands_view(r@) =~= before.push((provider_label(inv.artifact_path@, *sym), *sym)));
            }
            j = j + 1;
        }
        proof {
            assert(inv.symbols@.subrange(0, inv.symbols@.len() as int) =~= inv.symbols@);
            let sub = inventories@.subrange(0, i + 1);
            assert(sub.drop_last() =~= inventories@.subrange(0, i as int));
            assert(sub.last() == *inv);
        }
        i = i + 1;
    }
    assert(inventories@.subrange(0, inventories@.len() as int) =~= inventories@);
    r
}

fn is_visible(s: &SymbolEntry) -> (r: bool)
    ensures
        r == visible(*s),
{
    s.visibility != SymbolVisibility::Hidden && s.visibility != SymbolVisibility::Internal
}

fn is_typed(s: &SymbolEntry, expect: bool) -> (r: bool)
    ensures
        r == typed(*s, expect),
{
    is_visible(s) && s.is_function == expect
}

/// Status and visibility from the exported candidates, before ABI evidence.
fn base_status_exec(
    c: &Vec<(String, &SymbolEntry)>,
    decorated: bool,
    declared: bool,
    expect: bool,
) -> (r: (MatchStatus, Option<SymbolVisibility>))
    ensures
        r == base_status(cands_view(c@), decorated, declared, expect),
{
    let ghost cv = cands_view(c@);
    if c.len() == 0 {
        let status = if decorated {
            MatchStatus::DecorationMismatch
        } else if declared {
            MatchStatus::UnresolvedDeclaredLinkInputs
        } else {
            MatchStatus::Missing
        };
        return (status, None);
    }
    assert(cv[0].1 == *c@[0].1);
    let mut v: usize = 0;
    while v < c.len() && !is_visible(c[v].1)
        invariant
            v <= c@.len(),
            cv == cands_view(c@),
            first_visible_from(cv, 0) == first_visible_from(cv, v as int),
        decreases c@.len() - v,
    {
        assert(cv[v as int].1 == *c@[v as int].1);
        v = v + 1;
    }
    if v == c.len() {
        return (MatchStatus::Hidden, Some(c[0].1.visibility));
    }
    assert(cv[v as int].1 == *c@[v as int].1);
    let mut t: usize = 0;
    while t < c.len() && !is_typed(c[t].1, expect)
        invariant
            t <= c@.len(),
            cv == cands_view(c@),
            first_typed_from(cv, expect, 0) == first_typed_from(cv, expect, t as int),
        decreases c@.len() - t,
    {
        assert(cv[t as int].1 == *c@[t as int].1);
        t = t + 1;
    }
    if t == c.len() {
        let status = if expect {
            MatchStatus::NotAFunction
        } else {
            MatchStatus::NotAVariable
        };
        return (status, Some(c[v].1.visibility));
    }
    assert(cv[t as int] == (c@[t as int].0@, *c@[t as int].1));
    let mut j: usize = 0;
    while j < c.len() && !(is_typed(c[j].1, expect) && !str_eq(c[j].0.as_str(), c[t].0.as_str()))
        invariant
            j <= c@.len(),
            t < c@.len(),
            cv == cands_view(c@),
            cv[t as int] == (c@[t as int].0@, *c@[t as int].1),
            forall|k: int| 0 <= k < j ==> typed(#[trigger] cv[k].1, expect) ==> cv[k].0 == cv[t as int].0,
        decreases c@.len() - j,
    {
        assert(cv[j as int] == (c@[j as int].0@, *c@[j as int].1));
        j = j + 1;
    }
    proof {
        if j < c.len() {
            assert(cv[j as int] == (c@[j as int].0@, *c@[j as int].1));
            assert(providers_differ(cv, expect)) by {
                assert(typed(cv[t as int].1, expect) && typed(cv[j as int].1, expect) && cv[t as int].0 != cv[j as int].0);
            }
        } else {
            assert(!providers_differ(cv, expect)) by {
                assert forall|a: int, b: int|
                    0 <= a < cv.len() && 0 <= b < cv.len() && typed(#[trigger] cv[a].1, expect) && typed(
                        #[trigger] cv[b].1,
                        expect,
                    ) implies cv[a].0 == cv[b].0 by {}
            }
        }
    }
    if j < c.len() {
        (MatchStatus::DuplicateProviders, Some(c[t].1.visibility))
    } else if c[t].1.binding == SymbolBinding::Weak {
        (MatchStatus::WeakMatch, Some(c[t].1.visibility))
    } else {
        (MatchStatus::Matched, Some(c[t].1.visibility))
    }
}

/// Provider labels of candidates.
fn labels_exec(c: &Vec<(String, &SymbolEntry)>) -> (r: Vec<String>)
    ensures
        strs(r@) == labels(cands_view(c@)),
{
    let mut r: Vec<String> = Vec::new();
    let mut i: usize = 0;
    while i < c.len()
        invariant
            i <= c@.len(),
            strs(r@) == labels(cands_view(c@)).subrange(0, i as int),
        decreases c@.len() - i,
    {
        let ghost before = r@;
        r.push(c[i].0.clone());
        assert(strs(r@) =~= labels(cands_view(c@)).subrange(0, i + 1)) by {
            assert(strs(r@) =~= strs(before).push(c@[i as int].0@));
        }
        i = i + 1;
    }
    assert(labels(cands_view(c@)).subrange(0, i as int) =~= labels(cands_view(c@)));
    r
}

proof fn lemma_raw_names_concat(a: Seq<(Seq<char>, SymbolEntry)>, b: Seq<(Seq<char>, SymbolEntry)>)
    ensures
        raw_names(a + b) == raw_names(a) + raw_names(b),
    decreases b.len(),
{
    if b.len() == 0 {
        assert(a + b =~= a);
        assert(raw_names(b) =~= seq![]);
        assert(raw_names(a) + raw_names(b) =~= raw_names(a));
    } else {
        lemma_raw_names_concat(a, b.drop_last());
        assert((a + b).drop_last() =~= a + b.drop_last());
        assert((a + b).last() == b.last());
        let tail = match b.last().1.raw_name {
            Some(r) => seq![r@],
            None => seq![],
        };
        assert(raw_names(a) + raw_names(b.drop_last()) + tail =~= raw_names(a) + (raw_names(b.drop_last()) + tail));
    }
}

/// Appends the raw spellings of candidates.
fn push_raw_names(out: &mut Vec<String>, c: &Vec<(String, &SymbolEntry)>)
    ensures
        strs(final(out)@) == strs(old(out)@) + raw_names(cands_view(c@)),
{
    let ghost start = strs(out@);
    let mut i: usize = 0;
    while i < c.len()
        invariant
            i <= c@.len(),
            strs(out@) == start + raw_names(cands_view(c@).subrange(0, i as int)),
        decreases c@.len() - i,
    {
        let ghost before = strs(out@);
        let ghost sub = cands_view(c@).subrange(0, i + 1);
        assert(sub.drop_last() =~= cands_view(c@).subrange(0, i as int));
        assert(sub.last() == (c@[i as int].0@, *c@[i as int].1));
        match &c[i].1.raw_name {
            Some(raw) => {
                out.push(raw.clone());
                assert(strs(out@) =~= before.push(raw@));
                assert(start + raw_names(sub) =~= before.push(raw@));
            },
            None => {
                assert(start + raw_names(sub) =~= before);
            },
        }
        i = i + 1;
    }
    assert(cands_view(c@).subrange(0, i as int) =~= cands_view(c@));
}

/// Some imported candidate is re-exported.
fn reexported_exec(im: &Vec<(String, &SymbolEntry)>) -> (r: bool)
    ensures
        r == reexported(cands_view(im@)),
{
    let mut i: usize = 0;
    while i < im.len()
        invariant
            i <= im@.len(),
            forall|k: int| 0 <= k < i ==> (#[trigger] cands_view(im@)[k]).1.reexported_via@.len() == 0,
        decreases im@.len() - i,
    {
        assert(cands_view(im@)[i as int].1 == *im@[i as int].1);
        if im[i].1.reexported_via.len() > 0 {
            return true;
        }
        i = i + 1;
    }
    false
}

/// Some inventory has dynamic dependencies.
fn has_dependencies_exec(inventories: &[SymbolInventory]) -> (r: bool)
    ensures
        r == has_dependencies(inventories@),
{
    let mut i: usize = 0;
    while i < inventories.len()
        invariant
            i <= inventories@.len(),
            forall|k: int| 0 <= k < i ==> (#[trigger] inventories@[k]).dependency_edges@.len() == 0,
        decreases inventories@.len() - i,
    {
        if inventories[i].dependency_edges.len() > 0 {
            return true;
        }
        i = i + 1;
    }
    false
}

fn any_some_exec(v: &Vec<Option<u64>>) -> (r: bool)
    ensures
        r == any_some(v@),
{
    let mut i: usize = 0;
    while i < v.len()
        invariant
            i <= v@.len(),
            forall|k: int| 0 <= k < i ==> (#[trigger] v@[k]) is None,
        decreases v@.len() - i,
    {
        if v[i].is_some() {
            return true;
        }
        i = i + 1;
    }
    false
}

fn sizes_differ_exec(e: &Vec<Option<u64>>, o: &Vec<Option<u64>>) -> (r: bool)
    ensures
        r == sizes_differ(e@, o@),
{
    let mut i: usize = 0;
    while i < e.len() && i < o.len()
        invariant
            i <= e@.len(),
            forall|k: int| 0 <= k < i && k < o@.len() ==> !((#[trigger] e@[k]) is Some && o@[k] is Some && e@[k] != o@[k]),
        decreases e@.len() - i,
    {
        match (e[i], o[i]) {
            (Some(a), Some(b)) => {
                if a != b {
                    return true;
                }
            },
            _ => {},
        }
        i = i + 1;
    }
    false
}

fn copy_sizes(v: &Vec<Option<u64>>) -> (r: Vec<Option<u64>>)
    ensures
        r@ == v@,
{
    let mut r: Vec<Option<u64>> = Vec::new();
    let mut i: usize = 0;
    while i < v.len()
        invariant
            i <= v@.len(),
            r@ == v@.subrange(0, i as int),
        decreases v@.len() - i,
    {
        r.push(v[i]);
        i = i + 1;
        assert(r@ =~= v@.subrange(0, i as int));
    }
    assert(v@.subrange(0, i as int) =~= v@);
    r
}

/// Routine ABI evidence from the expected and observed hints of a function.
fn routine_evidence(
    exp_count: usize,
    exp_ret: Option<u64>,
    exp_sizes: &Vec<Option<u64>>,
    obs: &Option<FunctionAbiHint>,
) -> (r: Option<RoutineAbiEvidence>)
    ensures
        match r {
            Some(x) => spec_routine(exp_count, exp_ret, exp_sizes@, *obs) == Some(routine_view(x)),
            None => spec_routine(exp_count, exp_ret, exp_sizes@, *obs) is None,
        },
{
    let pc: Option<(usize, usize)> = match obs {
        Some(o) => match o.parameter_count {
            Some(n) => Some((exp_count, n)),
            None => None,
        },
        None => None,
    };
    let rs: Option<(u64, u64)> = match (exp_ret, obs) {
        (Some(e), Some(o)) => match o.return_size {
            Some(x) => Some((e, x)),
            None => None,
        },
        _ => None,
    };
    let ps: bool = match obs {
        Some(o) => exp_sizes.len() > 0 && exp_sizes.len() == o.parameter_sizes.len()
            && any_some_exec(exp_sizes) && any_some_exec(&o.parameter_sizes),
        None => false,
    };
    if pc.is_none() && rs.is_none() && !ps {
        return None;
    }
    let sizes_mismatch = ps && match obs {
        Some(o) => sizes_differ_exec(exp_sizes, &o.parameter_sizes),
        None => false,
    };
    let count_mismatch = match pc {
        Some(p) => p.0 != p.1,
        None => false,
    };
    let return_mismatch = match rs {
        Some(q) => q.0 != q.1,
        None => false,
    };
    let mismatch = count_mismatch || return_mismatch || sizes_mismatch;
    let has_pc = pc.is_some();
    let has_rs = rs.is_some();
    let kind = if mismatch {
        RoutineAbiEvidenceKind::Mismatch
    } else if has_pc && !has_rs && !ps {
        RoutineAbiEvidenceKind::ParameterCountOnly
    } else if !has_pc && has_rs && !ps {
        RoutineAbiEvidenceKind::ReturnShapeOnly
    } else if !has_pc && !has_rs && ps {
        RoutineAbiEvidenceKind::ParameterShapesOnly
    } else if has_pc && has_rs && !ps {
        RoutineAbiEvidenceKind::ParameterCountAndReturnShape
    } else if has_pc && !has_rs && ps {
        RoutineAbiEvidenceKind::ParameterCountAndParameterShapes
    } else if !has_pc && has_rs && ps {
        RoutineAbiEvidenceKind::ReturnShapeAndParameterShapes
    } else {
        RoutineAbiEvidenceKind::FullyShaped
    };
    let confidence = if mismatch {
        RoutineAbiConfidence::Mismatch
    } else if ps || (has_pc && has_rs) {
        RoutineAbiConfidence::Strong
    } else {
        RoutineAbiConfidence::Partial
    };
    let expected_parameter_sizes = if ps {
        copy_sizes(exp_sizes)
    } else {
        Vec::new()
    };
    let observed_parameter_sizes = if ps {
        match obs {
            Some(o) => copy_sizes(&o.parameter_sizes),
            None => Vec::new(),
        }
    } else {
        Vec::new()
    };
    proof {
        if !ps {
            assert(expected_parameter_sizes@ =~= seq![]);
            assert(observed_parameter_sizes@ =~= seq![]);
        }
    }
    Some(
        RoutineAbiEvidence {
            evidence_kind: Some(kind),
            confidence: Some(confidence),
            expected_parameter_count: match pc {
                Some(p) => Some(p.0),
                None => None,
            },
            observed_parameter_count: match pc {
                Some(p) => Some(p.1),
                None => None,
            },
            expected_return_size: match rs {
                Some(q) => Some(q.0),
                None => None,
            },
            observed_return_size: match rs {
                Some(q) => Some(q.1),
                None => None,
            },
            expected_parameter_sizes,
            observed_parameter_sizes,
        },
    )
}

/// Expected sizes of the parameters of a function.
fn param_sizes(package: &BindingPackage, params: &Vec<crate::ir::ParameterBinding>) -> (r: Vec<Option<u64>>)
    ensures
        r@ == expected_param_sizes(*package, params@),
{
    let mut r: Vec<Option<u64>> = Vec::new();
    let mut i: usize = 0;
    while i < params.len()
        invariant
            i <= params@.len(),
            r@ == expected_param_sizes(*package, params@).subrange(0, i as int),
        decreases params@.len() - i,
    {
        r.push(expected_abi_size(package, &params[i].ty));
        i = i + 1;
        assert(r@ =~= expected_param_sizes(*package, params@).subrange(0, i as int));
    }
    assert(expected_param_sizes(*package, params@).subrange(0, i as int) =~= expected_param_sizes(*package, params@));
    r
}

fn confidence_exec(s: MatchStatus) -> (r: MatchConfidence)
    ensures
        r == confidence_for(s),
{
    match s {
        MatchStatus::Matched => MatchConfidence::High,
        MatchStatus::WeakMatch => MatchConfidence::Medium,
        MatchStatus::Missing => MatchConfidence::NoConfidence,
        _ => MatchConfidence::Low,
    }
}

/// Validates one item: `None` for items other than functions and variables.
fn validate_item(package: &BindingPackage, inventories: &[SymbolInventory], item: &BindingItem) -> (r: Option<(SymbolMatch, ValidationEntry, bool)>)
    ensures
        match r {
            Some(x) => is_validated(*item) && validated_as(x.0, x.1, *package, inventories@, *item)
                && x.2 == abi_compared_for(*package, inventories@, *item),
            None => !is_validated(*item),
        },
{
    let (name, expect) = match item {
        BindingItem::Function(f) => (&f.name, true),
        BindingItem::Variable(v) => (&v.name, false),
        _ => {
            return None;
        },
    };
    assert(name@ == decl_name(*item));
    let ex = collect_candidates(inventories, CandidateKind::Exported, name);
    let im = collect_candidates(inventories, CandidateKind::Imported, name);
    let de = collect_candidates(inventories, CandidateKind::Decorated, name);
    let ghost exv = cands_view(ex@);
    let provider_artifacts = labels_exec(&ex);
    let mut raw_symbol_names: Vec<String> = Vec::new();
    push_raw_names(&mut raw_symbol_names, &ex);
    push_raw_names(&mut raw_symbol_names, &im);
    push_raw_names(&mut raw_symbol_names, &de);
    proof {
        lemma_raw_names_concat(cands_view(ex@), cands_view(im@));
        lemma_raw_names_concat(cands_view(ex@) + cands_view(im@), cands_view(de@));
        assert(strs(raw_symbol_names@) =~= raw_names(cands_view(ex@) + cands_view(im@) + cands_view(de@)));
    }
    let declared = has_declared_link_inputs(package);
    let (base, visibility) = base_status_exec(&ex, de.len() > 0, declared, expect);
    proof {
        assert(cands_view(de@).len() == de@.len());
        if base == MatchStatus::Matched {
            assert(exv.len() > 0);
            assert(exv[0].1 == *ex@[0].1);
        }
    }
    let abi_shape = if base == MatchStatus::Matched && !expect {
        match item {
            BindingItem::Variable(v) => match (expected_abi_size(package, &v.ty), ex[0].1.size) {
                (Some(e), Some(o)) => Some(AbiShapeEvidence { expected_size: Some(e), observed_size: Some(o) }),
                _ => None,
            },
            _ => None,
        }
    } else {
        None
    };
    let routine_abi = if base == MatchStatus::Matched && expect {
        match item {
            BindingItem::Function(f) => {
                let ret = expected_abi_size(package, &f.return_type);
                let sizes = param_sizes(package, &f.parameters);
                routine_evidence(f.parameters.len(), ret, &sizes, &ex[0].1.function_abi)
            },
            _ => None,
        }
    } else {
        None
    };
    let shape_mismatch = match abi_shape {
        Some(sh) => sh.expected_size != sh.observed_size,
        None => false,
    };
    let routine_mismatch = match &routine_abi {
        Some(rt) => match rt.evidence_kind {
            Some(RoutineAbiEvidenceKind::Mismatch) => true,
            _ => false,
        },
        None => false,
    };
    let status = if shape_mismatch || routine_mismatch {
        MatchStatus::AbiShapeMismatch
    } else {
        base
    };
    let confidence = confidence_exec(status);
    let evidence_kind = match status {
        MatchStatus::Matched => if abi_shape.is_some() || routine_abi.is_some() {
            EvidenceKind::AbiShapeVerified
        } else {
            EvidenceKind::ExactExported
        },
        MatchStatus::AbiShapeMismatch => EvidenceKind::AbiShapeMismatch,
        MatchStatus::WeakMatch => EvidenceKind::WeakExported,
        MatchStatus::Hidden => EvidenceKind::HiddenProvider,
        MatchStatus::DecorationMismatch => EvidenceKind::DecoratedCandidate,
        MatchStatus::DuplicateProviders => EvidenceKind::DuplicateVisibleProviders,
        MatchStatus::UnresolvedDeclaredLinkInputs => if reexported_exec(&im)
            || has_dependencies_exec(inventories) {
            EvidenceKind::ReexportedCandidate
        } else {
            EvidenceKind::DeclaredLinkInputsWithoutProvider
        },
        MatchStatus::Missing => if reexported_exec(&im) {
            EvidenceKind::ReexportedCandidate
        } else {
            EvidenceKind::MissingProvider
        },
        MatchStatus::NotAFunction | MatchStatus::NotAVariable => EvidenceKind::KindMismatch,
    };
    let kind = if expect {
        ItemKind::Function
    } else {
        ItemKind::Variable
    };
    let flag = abi_shape.is_some() || routine_abi.is_some();
    let m = SymbolMatch {
        name: name.clone(),
        item_kind: kind,
        status,
        visibility,
        provider_artifacts: crate::text::clone_strings(&provider_artifacts),
        confidence,
        evidence_kind,
    };
    let e = ValidationEntry {
        declaration: ValidationDeclaration { name: name.clone(), item_kind: kind },
        status,
        evidence: ValidationEvidence {
            provider_artifacts,
            raw_symbol_names,
            visibility,
            confidence,
            evidence_kind,
            abi_shape,
            routine_abi,
        },
    };
    Some((m, e, flag))
}

/// The report that `validate_many` gives for a package against inventories: one match
/// and one entry per function or variable, in package order; their summary; and the
/// phases, ABI evidence completed when some ABI evidence was compared.
pub open spec fn is_report_for(r: ValidationReport, pkg: BindingPackage, invs: Seq<SymbolInventory>) -> bool {
    let items = pkg.items@.filter(validated_pred());
    &&& r.matches@.len() == items.len()
    &&& r.entries@.len() == items.len()
    &&& forall|i: int|
        0 <= i < items.len() ==> validated_as(
            #[trigger] r.matches@[i],
            r.entries@[i],
            pkg,
            invs,
            items[i],
        )
    &&& r.summary == summary_of(r.matches@)
    &&& r.phases@ == phases_for(
        exists|i: int| 0 <= i < items.len() && abi_compared_for(pkg, invs, #[trigger] items[i]),
    )
}

/// Validates a package against one inventory.
pub fn validate(package: &BindingPackage, inventory: &SymbolInventory) -> (r: ValidationReport)
    ensures
        is_report_for(r, *package, seq![*inventory]),
{
    validate_many(package, slice_of_one(inventory))
}

/// `std::slice::from_ref`: a slice holding just `x`.
#[verifier::external_body]
fn slice_of_one(x: &SymbolInventory) -> (r: &[SymbolInventory])
    ensures
        r@ == seq![*x],
{
    std::slice::from_ref(x)
}

/// Validates every function and variable of a package against the symbols of the
/// inventories.
pub fn validate_many(package: &BindingPackage, inventories: &[SymbolInventory]) -> (r: ValidationReport)
    ensures
        is_report_for(r, *package, inventories@),
{
    let mut matches: Vec<SymbolMatch> = Vec::new();
    let mut entries: Vec<ValidationEntry> = Vec::new();
    let mut any_abi_shape_evidence = false;
    let mut i: usize = 0;
    while i < package.items.len()
        invariant
            i <= package.items@.len(),
            ({
                let items = package.items@.subrange(0, i as int).filter(validated_pred());
                &&& matches@.len() == items.len()
                &&& entries@.len() == items.len()
                &&& forall|j: int|
                    0 <= j < items.len() ==> validated_as(
                        #[trigger] matches@[j],
                        entries@[j],
                        *package,
                        inventories@,
                        items[j],
                    )
                &&& any_abi_shape_evidence == exists|j: int|
                    0 <= j < items.len() && abi_compared_for(*package, inventories@, #[trigger] items[j])
            }),
        decreases package.items@.len() - i,
    {
        let ghost prev = package.items@.subrange(0, i as int).filter(validated_pred());
        let ghost sub = package.items@.subrange(0, i + 1);
        proof {
            assert(sub.drop_last() =~= package.items@.subrange(0, i as int));
            reveal_with_fuel(Seq::filter, 1);
        }
        match validate_item(package, inventories, &package.items[i]) {
            Some((m, e, flag)) => {
                let ghost old_any = any_abi_shape_evidence;
                matches.push(m);
                entries.push(e);
                any_abi_shape_evidence = any_abi_shape_evidence || flag;
                proof {
                    let items = sub.filter(validated_pred());
                    assert(items == prev.push(package.items@[i as int]));
                    assert forall|j: int| 0 <= j < items.len() implies validated_as(
                        #[trigger] matches@[j],
                        entries@[j],
                        *package,
                        inventories@,
                        items[j],
                    ) by {
                        if j < prev.len() {
                            assert(items[j] == prev[j]);
                        }
                    }
                    if old_any {
                        let w = choose|j: int| 0 <= j < prev.len() && abi_compared_for(*package, inventories@, #[trigger] prev[j]);
                        assert(items[w] == prev[w]);
                    }
                    if flag {
                        assert(items[prev.len() as int] == package.items@[i as int]);
                    }
                    if any_abi_shape_evidence {
                    } else {
                        assert forall|j: int| 0 <= j < items.len() implies !abi_compared_for(*package, inventories@, #[trigger] items[j]) by {
                            if j < prev.len() {
                                assert(items[j] == prev[j]);
                            }
                        }
                    }
                }
            },
            None => {
                proof {
                    assert(sub.filter(validated_pred()) == prev);
                }
            },
        }
        i = i + 1;
    }
    proof {
        assert(package.items@.subrange(0, i as int) =~= package.items@);
    }
    let summary = build_summary(&matches);
    ValidationReport {
        phases: build_validation_phases(any_abi_shape_evidence),
        entries,
        summary,
        matches,
    }
}

} // verus!
