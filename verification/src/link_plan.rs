//! Link planning: which inspected artifacts provide each declared native input
//! of a package's link surface.
use vstd::prelude::*;

use crate::ir::link::{copy_input, copy_inputs, same_input, same_inputs};
use crate::ir::{BindingPackage, LinkInput, LinkRequirementSource, LinkResolutionMode, NativeSurfaceKind};
use crate::line_markers::{components_of, path_components};
use crate::symbols::SymbolInventory;
use crate::text::{
    char_vecs, chars_eq, chars_lt, chars_of, clone_strings, concat_chars, contains_chars,
    contains_s, copy_chars, ends_with_chars, ends_with_s, lemma_lex_order, lex_lt,
    starts_with_chars, starts_with_s, strs,
};

verus! {

/// How an inventory was matched to a declared input.
#[derive(Debug, Clone, Copy, PartialEq, Eq, Structural)]
pub enum ProviderMatchKind {
    ExactArtifact,
    LibraryName,
    FrameworkName,
}

/// Whether the provider was named by the package or found among inventories.
#[derive(Debug, Clone, Copy, PartialEq, Eq, Structural)]
pub enum ProviderProvenance {
    DeclaredArtifact,
    DiscoveredInventory,
}

/// One inspected artifact that can satisfy a declared input.
#[derive(Debug, Clone, PartialEq, Eq)]
pub struct ResolvedProvider {
    pub artifact_path: String,
    pub match_kind: ProviderMatchKind,
    pub provenance: ProviderProvenance,
    pub dependency_edges: Vec<String>,
}

/// Outcome of resolving one requirement: no provider, exactly one, or several.
#[derive(Debug, Clone, Copy, PartialEq, Eq, Default, Structural)]
pub enum RequirementResolution {
    #[default]
    Unresolved,
    Resolved,
    Ambiguous,
}

/// One declared input with the providers found for it.
#[derive(Debug, Clone, PartialEq, Eq)]
pub struct ResolvedLinkRequirement {
    pub declared: LinkInput,
    pub source: LinkRequirementSource,
    pub resolution: RequirementResolution,
    pub providers: Vec<ResolvedProvider>,
}

/// Library-facing link plan derived from a package link surface.
///
/// This is a normalized planning artifact, not a filesystem-resolved linker invocation.
#[derive(Debug, Clone, PartialEq, Eq)]
pub struct ResolvedLinkPlan {
    pub preferred_mode: LinkResolutionMode,
    pub native_surface_kind: NativeSurfaceKind,
    pub platform_constraints: Vec<String>,
    pub inputs: Vec<LinkInput>,
    pub requirements: Vec<ResolvedLinkRequirement>,
    pub transitive_dependencies: Vec<String>,
}

impl Default for ResolvedLinkPlan {
    fn default() -> (r: Self)
        ensures
            r.preferred_mode == LinkResolutionMode::Default,
            r.native_surface_kind == NativeSurfaceKind::HeaderOnly,
            r.platform_constraints@.len() == 0,
            r.inputs@.len() == 0,
            r.requirements@.len() == 0,
            r.transitive_dependencies@.len() == 0,
    {
        ResolvedLinkPlan {
            preferred_mode: LinkResolutionMode::Default,
            native_surface_kind: NativeSurfaceKind::HeaderOnly,
            platform_constraints: Vec::new(),
            inputs: Vec::new(),
            requirements: Vec::new(),
            transitive_dependencies: Vec::new(),
        }
    }
}

// ---------------------------------------------------------------------------
// Model
// ---------------------------------------------------------------------------

/// View of an optional string slice.
pub open spec fn opt_ref_str(o: Option<&str>) -> Option<Seq<char>> {
    match o {
        Some(s) => Some(s@),
        None => None,
    }
}

/// A target satisfies the platform constraints when there are none, when no target
/// is given, or when the target contains one of them.
pub open spec fn spec_target_matches(constraints: Seq<Seq<char>>, target: Option<Seq<char>>) -> bool {
    constraints.len() == 0 || target is None || exists|i: int|
        0 <= i < constraints.len() && contains_s(target->0, #[trigger] constraints[i])
}

/// `Path::file_name`: the last component when it is a normal one.
pub open spec fn file_name_s(path: Seq<char>) -> Option<Seq<char>> {
    let c = path_components(path);
    if c.len() > 0 && c.last() != seq!['/'] && c.last() != seq!['.'] && c.last() != seq!['.', '.'] {
        Some(c.last())
    } else {
        None
    }
}

/// Library file names that provide library `name`: `lib{name}.a`, `.so`, `.dylib`,
/// `.tbd`, versioned `lib{name}.so.*`, and `lib{name}.*` ending in `.dylib` or `.tbd`.
pub open spec fn lib_file_matches(f: Seq<char>, name: Seq<char>) -> bool {
    let base = "lib"@ + name;
    ||| f == base + ".a"@
    ||| f == base + ".so"@
    ||| f == base + ".dylib"@
    ||| f == base + ".tbd"@
    ||| starts_with_s(f, base + ".so."@)
    ||| starts_with_s(f, base + "."@) && (ends_with_s(f, ".dylib"@) || ends_with_s(f, ".tbd"@))
}

/// The artifact at `path` provides library `name` (judged by its file name, or by the
/// whole path where it has none).
pub open spec fn spec_library_matches(path: Seq<char>, name: Seq<char>) -> bool {
    lib_file_matches(
        match file_name_s(path) {
            Some(f) => f,
            None => path,
        },
        name,
    )
}

/// The artifact at `path` provides framework `name`.
pub open spec fn spec_framework_matches(path: Seq<char>, name: Seq<char>) -> bool {
    contains_s(path, name + ".framework"@) || ends_with_s(path, "/"@ + name)
}

/// How an inventory at `path` matches a declared input, if it does.
pub open spec fn provider_match(input: LinkInput, path: Seq<char>) -> Option<(ProviderMatchKind, ProviderProvenance)> {
    match input {
        LinkInput::Artifact(a) => if path == a.path@ {
            Some((ProviderMatchKind::ExactArtifact, ProviderProvenance::DeclaredArtifact))
        } else {
            None
        },
        LinkInput::Library(l) => if spec_library_matches(path, l.name@) {
            Some((ProviderMatchKind::LibraryName, ProviderProvenance::DiscoveredInventory))
        } else {
            None
        },
        LinkInput::Framework(f) => if spec_framework_matches(path, f.name@) {
            Some((ProviderMatchKind::FrameworkName, ProviderProvenance::DiscoveredInventory))
        } else {
            None
        },
    }
}

/// A provider by its values: path, match kind, provenance, dependency edges.
pub open spec fn provider_view(p: ResolvedProvider) -> (Seq<char>, ProviderMatchKind, ProviderProvenance, Seq<Seq<char>>) {
    (p.artifact_path@, p.match_kind, p.provenance, strs(p.dependency_edges@))
}

pub open spec fn providers_view(v: Seq<ResolvedProvider>) -> Seq<(Seq<char>, ProviderMatchKind, ProviderProvenance, Seq<Seq<char>>)> {
    v.map_values(|p: ResolvedProvider| provider_view(p))
}

/// The providers of `input`, one per matching inventory, in inventory order.
pub open spec fn spec_providers(input: LinkInput, invs: Seq<SymbolInventory>) -> Seq<(Seq<char>, ProviderMatchKind, ProviderProvenance, Seq<Seq<char>>)>
    decreases invs.len(),
{
    if invs.len() == 0 {
        seq![]
    } else {
        let rest = spec_providers(input, invs.drop_last());
        let inv = invs.last();
        match provider_match(input, inv.artifact_path@) {
            Some((k, p)) => rest.push((inv.artifact_path@, k, p, strs(inv.dependency_edges@))),
            None => rest,
        }
    }
}

/// Resolution by provider count.
pub open spec fn resolution_for(n: nat) -> RequirementResolution {
    if n == 0 {
        RequirementResolution::Unresolved
    } else if n == 1 {
        RequirementResolution::Resolved
    } else {
        RequirementResolution::Ambiguous
    }
}

/// The plain library files `lib{name}.a`, `.so`, `.dylib` and `.tbd` provide library
/// `name`.
pub proof fn lemma_plain_library_file_provides(lib: crate::ir::link::LinkLibrary, path: Seq<char>)
    requires
        ({
            let base = "lib"@ + lib.name@;
            ||| file_name_s(path) == Some(base + ".a"@)
            ||| file_name_s(path) == Some(base + ".so"@)
            ||| file_name_s(path) == Some(base + ".dylib"@)
            ||| file_name_s(path) == Some(base + ".tbd"@)
        }),
    ensures
        provider_match(LinkInput::Library(lib), path) == Some(
            (ProviderMatchKind::LibraryName, ProviderProvenance::DiscoveredInventory),
        ),
{
}

/// A file whose name does not start with `lib{name}` never provides library `name`.
pub proof fn lemma_other_file_does_not_provide(lib: crate::ir::link::LinkLibrary, path: Seq<char>)
    requires
        file_name_s(path) matches Some(f) && !starts_with_s(f, "lib"@ + lib.name@),
    ensures
        provider_match(LinkInput::Library(lib), path) is None,
{
    let base = "lib"@ + lib.name@;
    let f = file_name_s(path)->0;
    if lib_file_matches(f, lib.name@) {
        let pre = if f == base + ".a"@ {
            ".a"@
        } else if f == base + ".so"@ {
            ".so"@
        } else if f == base + ".dylib"@ {
            ".dylib"@
        } else if f == base + ".tbd"@ {
            ".tbd"@
        } else if starts_with_s(f, base + ".so."@) {
            ".so."@
        } else {
            "."@
        };
        if f == base + pre {
            assert(f.subrange(0, base.len() as int) =~= base);
        } else {
            assert(starts_with_s(f, base + pre));
            assert(f.subrange(0, base.len() as int) =~= (base + pre).subrange(0, base.len() as int));
            assert((base + pre).subrange(0, base.len() as int) =~= base);
        }
        assert(starts_with_s(f, base));
    }
}

/// Versioned library files provide their library: an inventory whose file name is
/// `lib{name}.{v}.dylib`, `lib{name}.{v}.tbd` or `lib{name}.so.{v}` matches library
/// `name` by name, and as the only inventory it is the one provider found.
pub proof fn lemma_versioned_library_file_provides(
    lib: crate::ir::link::LinkLibrary,
    inv: SymbolInventory,
    v: Seq<char>,
)
    requires
        ({
            let base = "lib"@ + lib.name@;
            ||| file_name_s(inv.artifact_path@) == Some(base + "."@ + v + ".dylib"@)
            ||| file_name_s(inv.artifact_path@) == Some(base + "."@ + v + ".tbd"@)
            ||| file_name_s(inv.artifact_path@) == Some(base + ".so."@ + v)
        }),
    ensures
        provider_match(LinkInput::Library(lib), inv.artifact_path@) == Some(
            (ProviderMatchKind::LibraryName, ProviderProvenance::DiscoveredInventory),
        ),
        spec_providers(LinkInput::Library(lib), seq![inv]) == seq![
            (
                inv.artifact_path@,
                ProviderMatchKind::LibraryName,
                ProviderProvenance::DiscoveredInventory,
                strs(inv.dependency_edges@),
            ),
        ],
{
    let base = "lib"@ + lib.name@;
    let f = file_name_s(inv.artifact_path@)->0;
    let dot = base + "."@;
    let so = base + ".so."@;
    if f == base + "."@ + v + ".dylib"@ {
        assert(f.subrange(0, dot.len() as int) =~= dot);
        assert(f.subrange(f.len() - ".dylib"@.len(), f.len() as int) =~= ".dylib"@);
        assert(starts_with_s(f, dot) && ends_with_s(f, ".dylib"@));
    } else if f == base + "."@ + v + ".tbd"@ {
        assert(f.subrange(0, dot.len() as int) =~= dot);
        assert(f.subrange(f.len() - ".tbd"@.len(), f.len() as int) =~= ".tbd"@);
        assert(starts_with_s(f, dot) && ends_with_s(f, ".tbd"@));
    } else {
        assert(f.subrange(0, so.len() as int) =~= so);
        assert(starts_with_s(f, so));
    }
    assert(lib_file_matches(f, lib.name@));
    assert(seq![inv].drop_last() =~= Seq::<SymbolInventory>::empty());
    assert(spec_providers(LinkInput::Library(lib), Seq::<SymbolInventory>::empty()) =~= seq![]);
}

/// Requirement source recorded on a declared input.
pub open spec fn declared_source(input: LinkInput) -> LinkRequirementSource {
    match input {
        LinkInput::Library(l) => l.source,
        LinkInput::Artifact(a) => a.source,
        LinkInput::Framework(f) => f.source,
    }
}

/// `r` is the resolved requirement of `input` against `invs`.
pub open spec fn requirement_for(r: ResolvedLinkRequirement, input: LinkInput, invs: Seq<SymbolInventory>) -> bool {
    &&& same_input(r.declared, input)
    &&& r.source == declared_source(input)
    &&& providers_view(r.providers@) == spec_providers(input, invs)
    &&& r.resolution == resolution_for(r.providers@.len())
}

/// Dependency edges of providers, in order.
pub open spec fn provider_edges(ps: Seq<ResolvedProvider>) -> Seq<Seq<char>>
    decreases ps.len(),
{
    if ps.len() == 0 {
        seq![]
    } else {
        provider_edges(ps.drop_last()) + strs(ps.last().dependency_edges@)
    }
}

/// Dependency edges of every provider of every requirement, in order.
pub open spec fn requirement_edges(rs: Seq<ResolvedLinkRequirement>) -> Seq<Seq<char>>
    decreases rs.len(),
{
    if rs.len() == 0 {
        seq![]
    } else {
        requirement_edges(rs.drop_last()) + provider_edges(rs.last().providers@)
    }
}

/// `out` holds the distinct elements of `items` in strictly increasing order (what a
/// `BTreeSet` of them yields).
pub open spec fn sorted_set_of(out: Seq<Seq<char>>, items: Seq<Seq<char>>) -> bool {
    &&& forall|i: int, j: int| 0 <= i < j < out.len() ==> lex_lt(#[trigger] out[i], #[trigger] out[j])
    &&& forall|x: Seq<char>| out.contains(x) <==> items.contains(x)
}

/// The link plan of `package` for `invs` and `target`.
pub open spec fn is_plan_for(
    r: ResolvedLinkPlan,
    package: BindingPackage,
    invs: Seq<SymbolInventory>,
    target: Option<Seq<char>>,
) -> bool {
    let link = package.link;
    let m = spec_target_matches(strs(link.platform_constraints@), target);
    &&& r.preferred_mode == link.preferred_mode
    &&& r.native_surface_kind == link.native_surface_kind
    &&& m ==> {
        &&& r.platform_constraints@ == link.platform_constraints@
        &&& same_inputs(r.inputs@, link.ordered_inputs@)
        &&& r.requirements@.len() == link.ordered_inputs@.len()
        &&& forall|i: int|
            0 <= i < r.requirements@.len() ==> requirement_for(
                #[trigger] r.requirements@[i],
                link.ordered_inputs@[i],
                invs,
            )
    }
    &&& !m ==> r.platform_constraints@.len() == 0 && r.inputs@.len() == 0
        && r.requirements@.len() == 0
    &&& sorted_set_of(strs(r.transitive_dependencies@), requirement_edges(r.requirements@))
}

// ---------------------------------------------------------------------------
// Planning
// ---------------------------------------------------------------------------

/// Plan for the package with no inventories and no target.
pub fn resolve_link_plan(package: &BindingPackage) -> (r: ResolvedLinkPlan)
    ensures
        is_plan_for(r, *package, seq![], None),
{
    let none: Vec<SymbolInventory> = Vec::new();
    resolve_link_plan_for_target(package, none.as_slice(), None)
}

/// Plan for the package against inspected inventories, with no target.
pub fn resolve_link_plan_with_inventories(
    package: &BindingPackage,
    inventories: &[SymbolInventory],
) -> (r: ResolvedLinkPlan)
    ensures
        is_plan_for(r, *package, inventories@, None),
{
    resolve_link_plan_for_target(package, inventories, None)
}

/// Plan for the package against inventories; declared inputs are dropped when the
/// target does not satisfy the platform constraints.
pub fn resolve_link_plan_for_target(
    package: &BindingPackage,
    inventories: &[SymbolInventory],
    target: Option<&str>,
) -> (r: ResolvedLinkPlan)
    ensures
        is_plan_for(r, *package, inventories@, opt_ref_str(target)),
{
    let link = &package.link;
    let target_matches = target_matches_constraints(&link.platform_constraints, target);
    let mut requirements: Vec<ResolvedLinkRequirement> = Vec::new();
    if target_matches {
        let n = link.ordered_inputs.len();
        let mut i: usize = 0;
        while i < n
            invariant
                n == link.ordered_inputs@.len(),
                i <= n,
                requirements@.len() == i,
                forall|k: int|
                    0 <= k < i ==> requirement_for(
                        #[trigger] requirements@[k],
                        link.ordered_inputs@[k],
                        inventories@,
                    ),
            decreases n - i,
        {
            let declared = &link.ordered_inputs[i];
            let providers = matching_providers(declared, inventories);
            let resolution = if providers.len() == 0 {
                RequirementResolution::Unresolved
            } else if providers.len() == 1 {
                RequirementResolution::Resolved
            } else {
                RequirementResolution::Ambiguous
            };
            let req = ResolvedLinkRequirement {
                declared: copy_input(declared),
                source: declared_requirement_source(declared),
                resolution,
                providers,
            };
            proof {
                assert(providers_view(req.providers@).len() == req.providers@.len());
            }
            requirements.push(req);
            i = i + 1;
        }
    }
    let transitive_dependencies = collect_dependency_edges(&requirements);
    let platform_constraints = filtered_constraints(&link.platform_constraints, target);
    let inputs = if target_matches {
        copy_inputs(&link.ordered_inputs)
    } else {
        Vec::new()
    };
    proof {
        if target_matches {
            assert(same_inputs(inputs@, link.ordered_inputs@)) by {
                assert forall|k: int| 0 <= k < inputs@.len() implies same_input(
                    #[trigger] inputs@[k],
                    link.ordered_inputs@[k],
                ) by {
                    lemma_same_input_sym(link.ordered_inputs@[k], inputs@[k]);
                }
            }
        }
    }
    ResolvedLinkPlan {
        preferred_mode: link.preferred_mode,
        native_surface_kind: link.native_surface_kind,
        platform_constraints,
        inputs,
        requirements,
        transitive_dependencies,
    }
}

proof fn lemma_same_input_sym(a: LinkInput, b: LinkInput)
    requires
        same_input(a, b),
    ensures
        same_input(b, a),
{
}

/// The constraints when the target satisfies them, else none.
fn filtered_constraints(constraints: &Vec<String>, target: Option<&str>) -> (r: Vec<String>)
    ensures
        spec_target_matches(strs(constraints@), opt_ref_str(target)) ==> r@ == constraints@,
        !spec_target_matches(strs(constraints@), opt_ref_str(target)) ==> r@.len() == 0,
{
    if target_matches_constraints(constraints, target) {
        clone_strings(constraints)
    } else {
        Vec::new()
    }
}

/// Whether `target` satisfies the platform constraints.
fn target_matches_constraints(constraints: &Vec<String>, target: Option<&str>) -> (r: bool)
    ensures
        r == spec_target_matches(strs(constraints@), opt_ref_str(target)),
{
    if constraints.len() == 0 {
        return true;
    }
    let t = match target {
        None => {
            return true;
        },
        Some(t) => t,
    };
    let tv = chars_of(t);
    let mut i: usize = 0;
    while i < constraints.len()
        invariant
            i <= constraints@.len(),
            constraints@.len() > 0,
            opt_ref_str(target) == Some(t@),
            tv@ == t@,
            forall|k: int| 0 <= k < i ==> !contains_s(t@, #[trigger] strs(constraints@)[k]),
        decreases constraints@.len() - i,
    {
        let cv = chars_of(constraints[i].as_str());
        if contains_chars(&tv, &cv) {
            assert(contains_s(t@, strs(constraints@)[i as int]));
            return true;
        }
        i = i + 1;
    }
    false
}

/// Providers of `input` among `inventories`, in inventory order.
fn matching_providers(input: &LinkInput, inventories: &[SymbolInventory]) -> (r: Vec<ResolvedProvider>)
    ensures
        providers_view(r@) == spec_providers(*input, inventories@),
{
    let mut r: Vec<ResolvedProvider> = Vec::new();
    let mut i: usize = 0;
    while i < inventories.len()
        invariant
            i <= inventories@.len(),
            providers_view(r@) == spec_providers(*input, inventories@.subrange(0, i as int)),
        decreases inventories@.len() - i,
    {
        let inv = &inventories[i];
        let ghost before = r@;
        let m = provider_match_exec(input, &inv.artifact_path);
        proof {
            assert(inventories@.subrange(0, i + 1).drop_last() =~= inventories@.subrange(0, i as int));
            assert(inventories@.subrange(0, i + 1).last() == inventories@[i as int]);
        }
        match m {
            Some((kind, prov)) => {
                r.push(
                    ResolvedProvider {
                        artifact_path: inv.artifact_path.clone(),
                        match_kind: kind,
                        provenance: prov,
                        dependency_edges: clone_strings(&inv.dependency_edges),
                    },
                );
                assert(providers_view(r@) =~= providers_view(before).push(provider_view(r@.last())));
            },
            None => {},
        }
        i = i + 1;
    }
    assert(inventories@.subrange(0, inventories@.len() as int) =~= inventories@);
    r
}

/// Requirement source recorded on a declared input.
fn declared_requirement_source(input: &LinkInput) -> (r: LinkRequirementSource)
    ensures
        r == declared_source(*input),
{
    match input {
        LinkInput::Library(library) => library.source,
        LinkInput::Artifact(artifact) => artifact.source,
        LinkInput::Framework(framework) => framework.source,
    }
}

/// How the inventory at `path` matches `input`, if it does.
fn provider_match_exec(input: &LinkInput, path: &String) -> (r: Option<(ProviderMatchKind, ProviderProvenance)>)
    ensures
        r == provider_match(*input, path@),
{
    let pv = chars_of(path.as_str());
    match input {
        LinkInput::Artifact(artifact) => {
            let av = chars_of(artifact.path.as_str());
            if chars_eq(&pv, &av) {
                Some((ProviderMatchKind::ExactArtifact, ProviderProvenance::DeclaredArtifact))
            } else {
                None
            }
        },
        LinkInput::Library(library) => {
            let nv = chars_of(library.name.as_str());
            if inventory_matches_library_name(&pv, &nv) {
                Some((ProviderMatchKind::LibraryName, ProviderProvenance::DiscoveredInventory))
            } else {
                None
            }
        },
        LinkInput::Framework(framework) => {
            let nv = chars_of(framework.name.as_str());
            if inventory_matches_framework_name(&pv, &nv) {
                Some((ProviderMatchKind::FrameworkName, ProviderProvenance::DiscoveredInventory))
            } else {
                None
            }
        },
    }
}

/// `Path::file_name` on a path given as characters.
fn file_name_of(path: &Vec<char>) -> (r: Option<Vec<char>>)
    ensures
        match r {
            Some(f) => file_name_s(path@) == Some(f@),
            None => file_name_s(path@) is None,
        },
{
    let comps = components_of(path);
    if comps.len() == 0 {
        return None;
    }
    let last = &comps[comps.len() - 1];
    assert(char_vecs(comps@)[comps@.len() - 1] == last@);
    assert(path_components(path@).last() == last@);
    let special = if last.len() == 1 {
        last[0] == '/' || last[0] == '.'
    } else if last.len() == 2 {
        last[0] == '.' && last[1] == '.'
    } else {
        false
    };
    proof {
        if last@.len() == 1 {
            if last@[0] == '/' {
                assert(last@ =~= seq!['/']);
            }
            if last@[0] == '.' {
                assert(last@ =~= seq!['.']);
            }
        }
        if last@.len() == 2 && last@[0] == '.' && last@[1] == '.' {
            assert(last@ =~= seq!['.', '.']);
        }
    }
    if special {
        None
    } else {
        Some(copy_chars(last))
    }
}

/// Whether the artifact at `path` provides library `name`.
fn inventory_matches_library_name(path: &Vec<char>, name: &Vec<char>) -> (r: bool)
    ensures
        r == spec_library_matches(path@, name@),
{
    let f = match file_name_of(path) {
        Some(f) => f,
        None => copy_chars(path),
    };
    let base = concat_chars(&chars_of("lib"), name);
    if chars_eq(&f, &concat_chars(&base, &chars_of(".a")))
        || chars_eq(&f, &concat_chars(&base, &chars_of(".so")))
        || chars_eq(&f, &concat_chars(&base, &chars_of(".dylib")))
        || chars_eq(&f, &concat_chars(&base, &chars_of(".tbd")))
    {
        return true;
    }
    let so_prefix = concat_chars(&base, &chars_of(".so."));
    let dylib_prefix = concat_chars(&base, &chars_of("."));
    starts_with_chars(&f, &so_prefix) || (starts_with_chars(&f, &dylib_prefix)
        && ends_with_chars(&f, &chars_of(".dylib"))) || (starts_with_chars(&f, &dylib_prefix)
        && ends_with_chars(&f, &chars_of(".tbd")))
}

/// Whether the artifact at `path` provides framework `name`.
fn inventory_matches_framework_name(path: &Vec<char>, name: &Vec<char>) -> (r: bool)
    ensures
        r == spec_framework_matches(path@, name@),
{
    contains_chars(path, &concat_chars(name, &chars_of(".framework"))) || ends_with_chars(
        path,
        &concat_chars(&chars_of("/"), name),
    )
}

// ---------------------------------------------------------------------------
// Transitive dependencies
// ---------------------------------------------------------------------------

/// Whether the string at `p` sorts strictly before `xv`.
fn sorts_before(out: &Vec<String>, p: usize, xv: &Vec<char>) -> (r: bool)
    requires
        p < out@.len(),
    ensures
        r == lex_lt(out@[p as int]@, xv@),
{
    let ev = chars_of(out[p].as_str());
    chars_lt(&ev, xv)
}

/// Adds `x` to a strictly sorted vector unless it is already there.
fn insert_sorted(out: &mut Vec<String>, x: &String)
    requires
        forall|i: int, j: int|
            0 <= i < j < old(out)@.len() ==> lex_lt(#[trigger] old(out)@[i]@, #[trigger] old(out)@[j]@),
    ensures
        forall|i: int, j: int|
            0 <= i < j < final(out)@.len() ==> lex_lt(#[trigger] final(out)@[i]@, #[trigger] final(out)@[j]@),
        forall|y: Seq<char>| strs(final(out)@).contains(y) <==> (strs(old(out)@).contains(y) || y == x@),
{
    let xv = chars_of(x.as_str());
    let mut p: usize = 0;
    while p < out.len() && sorts_before(out, p, &xv)
        invariant
            p <= out@.len(),
            out@ == old(out)@,
            xv@ == x@,
            forall|k: int| 0 <= k < p ==> lex_lt(#[trigger] out@[k]@, x@),
        decreases out@.len() - p,
    {
        p = p + 1;
    }
    let ghost o = old(out)@;
    if p < out.len() {
        let ev = chars_of(out[p].as_str());
        if chars_eq(&ev, &xv) {
            proof {
                assert(strs(o)[p as int] == x@);
                assert forall|y: Seq<char>| strs(o).contains(y) <==> (strs(o).contains(y) || y == x@) by {
                    if y == x@ {
                        assert(strs(o)[p as int] == y);
                    }
                }
            }
            return;
        }
        proof {
            lemma_lex_order(o[p as int]@, x@, x@);
            assert(lex_lt(x@, o[p as int]@));
            assert forall|k: int| p <= k < o.len() implies lex_lt(x@, #[trigger] o[k]@) by {
                if k > p {
                    lemma_lex_order(x@, o[p as int]@, o[k]@);
                }
            }
        }
    }
    let xc = x.clone();
    out.insert(p, xc);
    proof {
        let n = out@;
        assert(n[p as int]@ == x@);
        assert forall|i: int, j: int| 0 <= i < j < n.len() implies lex_lt(#[trigger] n[i]@, #[trigger] n[j]@) by {
            if i < p && j == p {
            } else if i < p && j > p {
                assert(n[j] == o[j - 1]);
                lemma_lex_order(n[i]@, x@, n[j]@);
            } else if i == p {
                assert(n[j] == o[j - 1]);
            } else if i > p {
                assert(n[i] == o[i - 1]);
                assert(n[j] == o[j - 1]);
            }
        }
        assert forall|y: Seq<char>| strs(n).contains(y) <==> (strs(o).contains(y) || y == x@) by {
            if strs(n).contains(y) {
                let k = choose|k: int| 0 <= k < strs(n).len() && strs(n)[k] == y;
                if k < p {
                    assert(strs(o)[k] == y);
                } else if k > p {
                    assert(strs(o)[k - 1] == y);
                }
            }
            if strs(o).contains(y) {
                let k = choose|k: int| 0 <= k < strs(o).len() && strs(o)[k] == y;
                if k < p {
                    assert(strs(n)[k] == y);
                } else {
                    assert(strs(n)[k + 1] == y);
                }
            }
            if y == x@ {
                assert(strs(n)[p as int] == y);
            }
        }
    }
}

/// The distinct dependency edges of all providers, sorted.
fn collect_dependency_edges(requirements: &Vec<ResolvedLinkRequirement>) -> (r: Vec<String>)
    ensures
        sorted_set_of(strs(r@), requirement_edges(requirements@)),
{
    let mut out: Vec<String> = Vec::new();
    let mut i: usize = 0;
    while i < requirements.len()
        invariant
            i <= requirements@.len(),
            forall|a: int, b: int| 0 <= a < b < out@.len() ==> lex_lt(#[trigger] out@[a]@, #[trigger] out@[b]@),
            forall|y: Seq<char>| strs(out@).contains(y) <==> requirement_edges(requirements@.subrange(0, i as int)).contains(y),
        decreases requirements@.len() - i,
    {
        let providers = &requirements[i].providers;
        let ghost done = requirement_edges(requirements@.subrange(0, i as int));
        let mut j: usize = 0;
        while j < providers.len()
            invariant
                j <= providers@.len(),
                *providers == requirements@[i as int].providers,
                forall|a: int, b: int| 0 <= a < b < out@.len() ==> lex_lt(#[trigger] out@[a]@, #[trigger] out@[b]@),
                forall|y: Seq<char>| strs(out@).contains(y) <==> (done + provider_edges(providers@.subrange(0, j as int))).contains(y),
            decreases providers@.len() - j,
        {
            let edges = &providers[j].dependency_edges;
            let ghost pdone = done + provider_edges(providers@.subrange(0, j as int));
            let mut k: usize = 0;
            while k < edges.len()
                invariant
                    k <= edges@.len(),
                    *edges == providers@[j as int].dependency_edges,
                    forall|a: int, b: int| 0 <= a < b < out@.len() ==> lex_lt(#[trigger] out@[a]@, #[trigger] out@[b]@),
                    forall|y: Seq<char>| strs(out@).contains(y) <==> (pdone + strs(edges@.subrange(0, k as int))).contains(y),
                decreases edges@.len() - k,
            {
                insert_sorted(&mut out, &edges[k]);
                proof {
                    let s0 = pdone + strs(edges@.subrange(0, k as int));
                    let s1 = pdone + strs(edges@.subrange(0, k + 1));
                    assert(s1 =~= s0.push(edges@[k as int]@));
                    assert forall|y: Seq<char>| s1.contains(y) <==> (s0.contains(y) || y == edges@[k as int]@) by {
                        if s1.contains(y) {
                            let q = choose|q: int| 0 <= q < s1.len() && s1[q] == y;
                            if q < s0.len() {
                                assert(s0[q] == y);
                            }
                        }
                        if s0.contains(y) {
                            let q = choose|q: int| 0 <= q < s0.len() && s0[q] == y;
                            assert(s1[q] == y);
                        }
                        if y == edges@[k as int]@ {
                            assert(s1[s0.len() as int] == y);
                        }
                    }
                }
                k = k + 1;
            }
            proof {
                assert(edges@.subrange(0, edges@.len() as int) =~= edges@);
                let ps = providers@.subrange(0, j + 1);
                assert(ps.drop_last() =~= providers@.subrange(0, j as int));
                assert(provider_edges(ps) == provider_edges(providers@.subrange(0, j as int)) + strs(edges@));
                assert(done + provider_edges(ps) =~= pdone + strs(edges@));
            }
            j = j + 1;
        }
        proof {
            assert(providers@.subrange(0, providers@.len() as int) =~= providers@);
            let rs = requirements@.subrange(0, i + 1);
            assert(rs.drop_last() =~= requirements@.subrange(0, i as int));
        }
        i = i + 1;
    }
    assert(requirements@.subrange(0, requirements@.len() as int) =~= requirements@);
    out
}

} // verus!
