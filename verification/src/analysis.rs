//! The link-analysis contract: link and binary evidence for a package, without its
//! source declarations.
use vstd::prelude::*;

use crate::diagnostics::{Diagnostic, SourceLocation};
use crate::ir::{
    link_surface_is_empty, BindingDefine, BindingInputs, BindingLinkSurface, BindingPackage,
    BindingTarget, LINC_VERSION,
    SCHEMA_VERSION,
};
use crate::ir::link::{copy_artifacts, copy_frameworks, copy_inputs, copy_libraries};
use crate::link_plan::{is_plan_for, resolve_link_plan, ResolvedLinkPlan};
use crate::probe::AbiProbeReport;
use crate::symbols::SymbolInventory;
use crate::text::{clone_opt, clone_strings};
use crate::validate::ValidationReport;

verus! {

/// Frontend-agnostic link/binary evidence contract.
///
/// Narrower than `BindingPackage`: it carries link and binary analysis state, not
/// source declarations.
#[derive(Debug, Clone, PartialEq, Eq)]
pub struct LinkAnalysisPackage {
    pub schema_version: u32,
    pub linc_version: String,
    pub target: BindingTarget,
    pub inputs: BindingInputs,
    pub diagnostics: Vec<Diagnostic>,
    pub declared_link_surface: BindingLinkSurface,
    pub resolved_link_plan: Option<ResolvedLinkPlan>,
    pub abi_probe: Option<AbiProbeReport>,
    pub symbol_inventories: Vec<SymbolInventory>,
    pub validation: Option<ValidationReport>,
}

/// A package with the current schema and version and nothing else.
pub open spec fn is_empty_analysis(p: LinkAnalysisPackage) -> bool {
    &&& p.schema_version == SCHEMA_VERSION
    &&& p.linc_version@ == LINC_VERSION@
    &&& p.target.target_triple.is_none() && p.target.compiler_command.is_none()
    &&& p.target.compiler_version.is_none() && p.target.flavor.is_none()
    &&& p.inputs.entry_headers@.len() == 0 && p.inputs.include_dirs@.len() == 0
    &&& p.inputs.defines@.len() == 0
    &&& p.diagnostics@.len() == 0
    &&& link_surface_is_empty(p.declared_link_surface)
    &&& p.resolved_link_plan.is_none()
    &&& p.abi_probe.is_none()
    &&& p.symbol_inventories@.len() == 0
    &&& p.validation.is_none()
}

/// The same link surface: equal modes and element-for-element equal entries.
pub open spec fn same_surface(a: BindingLinkSurface, b: BindingLinkSurface) -> bool {
    &&& a.preferred_mode == b.preferred_mode
    &&& a.native_surface_kind == b.native_surface_kind
    &&& a.platform_constraints@ == b.platform_constraints@
    &&& a.include_paths@ == b.include_paths@
    &&& a.framework_paths@ == b.framework_paths@
    &&& a.library_paths@ == b.library_paths@
    &&& a.libraries@ == b.libraries@
    &&& a.frameworks@ == b.frameworks@
    &&& a.artifacts@ == b.artifacts@
    &&& a.ordered_inputs@ == b.ordered_inputs@
}

/// The analysis contract of a binding package: its identity, inputs, diagnostics and
/// link surface carried over, and the link plan resolved without inventories.
pub open spec fn is_analysis_of(r: LinkAnalysisPackage, package: BindingPackage) -> bool {
    &&& r.schema_version == SCHEMA_VERSION
    &&& r.linc_version@ == LINC_VERSION@
    &&& r.target == package.target
    &&& r.inputs.entry_headers@ == package.inputs.entry_headers@
    &&& r.inputs.include_dirs@ == package.inputs.include_dirs@
    &&& r.inputs.defines@ == package.inputs.defines@
    &&& r.diagnostics@ == package.diagnostics@
    &&& same_surface(r.declared_link_surface, package.link)
    &&& r.resolved_link_plan matches Some(plan) && is_plan_for(plan, package, seq![], None)
    &&& r.abi_probe.is_none()
    &&& r.symbol_inventories@.len() == 0
    &&& r.validation.is_none()
}

impl Default for LinkAnalysisPackage {
    fn default() -> (r: Self)
        ensures
            is_empty_analysis(r),
    {
        LinkAnalysisPackage {
            schema_version: schema_version(),
            linc_version: linc_version(),
            target: BindingTarget::default(),
            inputs: BindingInputs::default(),
            diagnostics: Vec::new(),
            declared_link_surface: BindingLinkSurface::default(),
            resolved_link_plan: None,
            abi_probe: None,
            symbol_inventories: Vec::new(),
            validation: None,
        }
    }
}

impl LinkAnalysisPackage {
    pub fn new() -> (r: Self)
        ensures
            is_empty_analysis(r),
    {
        Self::default()
    }

    /// The link-analysis contract of a binding package.
    pub fn from_binding_package(package: &BindingPackage) -> (r: Self)
        ensures
            is_analysis_of(r, *package),
    {
        LinkAnalysisPackage {
            schema_version: schema_version(),
            linc_version: linc_version(),
            target: copy_target(&package.target),
            inputs: copy_binding_inputs(&package.inputs),
            diagnostics: copy_diagnostics(&package.diagnostics),
            declared_link_surface: copy_surface(&package.link),
            resolved_link_plan: Some(resolve_link_plan(package)),
            abi_probe: None,
            symbol_inventories: Vec::new(),
            validation: None,
        }
    }
}

fn schema_version() -> (r: u32)
    ensures
        r == SCHEMA_VERSION,
{
    SCHEMA_VERSION
}

fn linc_version() -> (r: String)
    ensures
        r@ == LINC_VERSION@,
{
    LINC_VERSION.to_owned()
}

fn copy_target(t: &BindingTarget) -> (r: BindingTarget)
    ensures
        r == *t,
{
    BindingTarget {
        target_triple: clone_opt(&t.target_triple),
        compiler_command: clone_opt(&t.compiler_command),
        compiler_version: clone_opt(&t.compiler_version),
        flavor: clone_opt(&t.flavor),
    }
}

fn copy_binding_inputs(i: &BindingInputs) -> (r: BindingInputs)
    ensures
        r.entry_headers@ == i.entry_headers@,
        r.include_dirs@ == i.include_dirs@,
        r.defines@ == i.defines@,
{
    let mut defines: Vec<BindingDefine> = Vec::new();
    let mut k: usize = 0;
    while k < i.defines.len()
        invariant
            k <= i.defines@.len(),
            defines@ == i.defines@.subrange(0, k as int),
        decreases i.defines@.len() - k,
    {
        let d = &i.defines[k];
        defines.push(BindingDefine { name: d.name.clone(), value: clone_opt(&d.value) });
        k = k + 1;
        assert(defines@ =~= i.defines@.subrange(0, k as int));
    }
    assert(i.defines@.subrange(0, k as int) =~= i.defines@);
    BindingInputs {
        entry_headers: clone_strings(&i.entry_headers),
        include_dirs: clone_strings(&i.include_dirs),
        defines,
    }
}

fn copy_diagnostic(d: &Diagnostic) -> (r: Diagnostic)
    ensures
        r == *d,
{
    Diagnostic {
        kind: d.kind,
        severity: d.severity,
        message: d.message.clone(),
        location: match &d.location {
            Some(l) => Some(SourceLocation { file: clone_opt(&l.file), offset: l.offset }),
            None => None,
        },
        item_name: clone_opt(&d.item_name),
        artifact_path: clone_opt(&d.artifact_path),
    }
}

fn copy_diagnostics(v: &Vec<Diagnostic>) -> (r: Vec<Diagnostic>)
    ensures
        r@ == v@,
{
    let mut r: Vec<Diagnostic> = Vec::new();
    let mut k: usize = 0;
    while k < v.len()
        invariant
            k <= v@.len(),
            r@ == v@.subrange(0, k as int),
        decreases v@.len() - k,
    {
        r.push(copy_diagnostic(&v[k]));
        k = k + 1;
        assert(r@ =~= v@.subrange(0, k as int));
    }
    assert(v@.subrange(0, k as int) =~= v@);
    r
}

fn copy_surface(s: &BindingLinkSurface) -> (r: BindingLinkSurface)
    ensures
        same_surface(r, *s),
{
    BindingLinkSurface {
        preferred_mode: s.preferred_mode,
        native_surface_kind: s.native_surface_kind,
        platform_constraints: clone_strings(&s.platform_constraints),
        include_paths: clone_strings(&s.include_paths),
        framework_paths: clone_strings(&s.framework_paths),
        library_paths: clone_strings(&s.library_paths),
        libraries: copy_libraries(&s.libraries),
        frameworks: copy_frameworks(&s.frameworks),
        artifacts: copy_artifacts(&s.artifacts),
        ordered_inputs: copy_inputs(&s.ordered_inputs),
    }
}

} // verus!
