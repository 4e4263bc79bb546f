//! LINC: link and binary evidence for C interop analysis.
//!
//! LINC takes frontend-neutral source contracts and native artifact evidence and
//! produces link plans, symbol inventories, validation reports and ABI evidence.
//!
//! - [`intake`]: frontend-neutral source contract and adapters
//! - [`ir`]: intermediate representation (link, types, macros)
//! - [`probe`]: ABI measurement and evidence
//! - [`symbols`]: binary symbol inventories
//! - [`validate`]: declaration-vs-artifact validation
//! - [`link_plan`]: link-plan construction and resolution
//! - [`diagnostics`]: diagnostic types
//! - [`error`]: error surface
pub mod text;
pub mod diagnostics;
pub mod ir;
pub mod line_markers;
pub mod intake;
pub mod symbols;
pub mod object_file;
pub mod link_plan;
pub mod validate;
pub mod error;
pub mod probe;
pub mod analysis;
pub mod codegen_rust;
pub mod raw_headers;
pub mod preprocess;
pub mod cli;
pub mod c_ast;
pub mod extract;

use vstd::prelude::*;

pub use analysis::LinkAnalysisPackage;
pub use diagnostics::{Diagnostic, DiagnosticKind, Severity};
pub use error::LincError;
pub use intake::{
    SourceDeclaration, SourceEnum, SourceEnumVariant, SourceField, SourceFunction, SourceLinkKind,
    SourceLinkRequirement, SourceMacro, SourcePackage, SourceParameter, SourceRecord, SourceType,
    SourceTypeAlias, SourceVariable,
};
pub use ir::SCHEMA_VERSION;
pub use link_plan::{
    resolve_link_plan, resolve_link_plan_for_target, resolve_link_plan_with_inventories,
    ProviderMatchKind, ProviderProvenance, RequirementResolution, ResolvedLinkPlan,
    ResolvedLinkRequirement, ResolvedProvider,
};
pub use probe::{
    AbiProbeReport, ProbeConfidence, ProbeSubjectKind, ProbeSubjectReport, ProbedFieldLayout,
    RecordCompleteness,
};
pub use symbols::{
    FunctionAbiHint, SymbolBinding, SymbolDirection, SymbolEntry, SymbolInventory,
    SymbolVisibility,
};
pub use validate::{
    validate, validate_many, AbiShapeEvidence, EvidenceKind, FunctionMatch, ItemKind,
    MatchConfidence, MatchStatus, RoutineAbiConfidence, RoutineAbiEvidence,
    RoutineAbiEvidenceKind, SymbolMatch, ValidationDeclaration, ValidationEntry,
    ValidationEvidence, ValidationPhase, ValidationPhaseReport, ValidationReport,
    ValidationSummary,
};

use intake::adapters::{not_framework_pred, source_kind_to_library};
use ir::{link_surface_empty_but_libraries, LinkRequirementSource, LINC_VERSION};

verus! {

/// Analyzes a frontend-neutral [`SourcePackage`] into the [`LinkAnalysisPackage`]
/// contract: the source's target identity and inputs, its non-framework link
/// requirements as declared libraries, and the link plan of that surface, which has
/// no declared inputs to resolve.
pub fn analyze_source_package(source: &SourcePackage) -> (r: LinkAnalysisPackage)
    ensures
        r.schema_version == SCHEMA_VERSION,
        r.linc_version@ == LINC_VERSION@,
        r.target.target_triple == source.target_triple,
        r.target.compiler_command == source.compiler_command,
        r.target.compiler_version == source.compiler_version,
        r.target.flavor.is_none(),
        r.inputs.entry_headers@ == source.entry_headers@,
        r.inputs.include_dirs@ == source.include_dirs@,
        r.inputs.defines@.len() == source.defines@.len(),
        forall|i: int|
            0 <= i < source.defines@.len() ==> (#[trigger] r.inputs.defines@[i]).name
                == source.defines@[i].0 && r.inputs.defines@[i].value == source.defines@[i].1,
        r.diagnostics@.len() == 0,
        ({
            let reqs = source.link_requirements@.filter(not_framework_pred());
            &&& r.declared_link_surface.libraries@.len() == reqs.len()
            &&& forall|i: int|
                0 <= i < reqs.len() ==> (#[trigger] r.declared_link_surface.libraries@[i]).name
                    == reqs[i].name && r.declared_link_surface.libraries@[i].kind
                    == source_kind_to_library(reqs[i].kind)
                    && r.declared_link_surface.libraries@[i].source
                    == LinkRequirementSource::Declared
        }),
        link_surface_empty_but_libraries(r.declared_link_surface),
        r.resolved_link_plan matches Some(p) && p.preferred_mode == r.declared_link_surface.preferred_mode
            && p.native_surface_kind == r.declared_link_surface.native_surface_kind
            && p.platform_constraints@.len() == 0 && p.inputs@.len() == 0
            && p.requirements@.len() == 0 && p.transitive_dependencies@.len() == 0,
        r.abi_probe.is_none(),
        r.symbol_inventories@.len() == 0,
        r.validation.is_none(),
{
    let binding = intake::adapters::to_binding_package(source);
    let r = LinkAnalysisPackage::from_binding_package(&binding);
    proof {
        let p = r.resolved_link_plan->0;
        assert(crate::text::strs(binding.link.platform_constraints@).len() == 0);
        if p.transitive_dependencies@.len() > 0 {
            let d = crate::text::strs(p.transitive_dependencies@);
            assert(d.contains(d[0]));
            assert(crate::link_plan::requirement_edges(p.requirements@) =~= seq![]);
        }
    }
    r
}

} // verus!
