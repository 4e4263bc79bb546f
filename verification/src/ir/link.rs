//! Native link surface types: libraries, artifacts, frameworks and the normalized
//! link surface attached to a binding package.
use vstd::prelude::*;

verus! {

/// Declared preference for how a library-name input should be linked.
#[derive(Debug, Clone, Copy, PartialEq, Eq, Structural)]
pub enum LinkLibraryKind {
    Default,
    Static,
    Dynamic,
}

/// Package-level preference for static vs dynamic resolution.
#[derive(Debug, Clone, Copy, PartialEq, Eq, Default, Structural)]
pub enum LinkResolutionMode {
    #[default]
    Default,
    PreferStatic,
    PreferDynamic,
}

/// Coarse classification of the native surface attached to a package.
#[derive(Debug, Clone, Copy, PartialEq, Eq, Default, Structural)]
pub enum NativeSurfaceKind {
    #[default]
    HeaderOnly,
    LibraryNames,
    ConcreteArtifacts,
    Mixed,
}

/// Provenance of one native requirement in the normalized link surface.
#[derive(Debug, Clone, Copy, PartialEq, Eq, Default, Structural)]
pub enum LinkRequirementSource {
    #[default]
    Declared,
    Inferred,
    Discovered,
}

/// One library-name link requirement; `name` is the linker-visible identifier.
#[derive(Debug, Clone, PartialEq, Eq)]
pub struct LinkLibrary {
    pub name: String,
    pub kind: LinkLibraryKind,
    pub source: LinkRequirementSource,
}

/// Concrete kind of a declared native artifact requirement.
#[derive(Debug, Clone, Copy, PartialEq, Eq, Structural)]
pub enum LinkArtifactKind {
    Object,
    StaticLibrary,
    SharedLibrary,
}

/// One concrete native artifact requirement; `path` is kept as given.
#[derive(Debug, Clone, PartialEq, Eq)]
pub struct LinkArtifact {
    pub path: String,
    pub kind: LinkArtifactKind,
    pub source: LinkRequirementSource,
}

/// One Apple framework requirement.
#[derive(Debug, Clone, PartialEq, Eq)]
pub struct LinkFramework {
    pub name: String,
    pub source: LinkRequirementSource,
}

/// Ordered native input as originally declared.
#[derive(Debug, Clone, PartialEq, Eq)]
pub enum LinkInput {
    Library(LinkLibrary),
    Artifact(LinkArtifact),
    Framework(LinkFramework),
}

/// Normalized native link surface attached to a binding package.
///
/// Bucketed collections and `ordered_inputs` are both kept, because ordering and
/// categorization serve different downstream uses.
#[derive(Debug, Clone, PartialEq, Eq)]
pub struct BindingLinkSurface {
    pub preferred_mode: LinkResolutionMode,
    pub native_surface_kind: NativeSurfaceKind,
    pub platform_constraints: Vec<String>,
    pub include_paths: Vec<String>,
    pub framework_paths: Vec<String>,
    pub library_paths: Vec<String>,
    pub libraries: Vec<LinkLibrary>,
    pub frameworks: Vec<LinkFramework>,
    pub artifacts: Vec<LinkArtifact>,
    pub ordered_inputs: Vec<LinkInput>,
}

/// The same link input, names compared by their characters.
pub open spec fn same_input(a: LinkInput, b: LinkInput) -> bool {
    match (a, b) {
        (LinkInput::Library(x), LinkInput::Library(y)) => x.name@ == y.name@ && x.kind == y.kind
            && x.source == y.source,
        (LinkInput::Artifact(x), LinkInput::Artifact(y)) => x.path@ == y.path@ && x.kind == y.kind
            && x.source == y.source,
        (LinkInput::Framework(x), LinkInput::Framework(y)) => x.name@ == y.name@ && x.source
            == y.source,
        _ => false,
    }
}

pub open spec fn same_inputs(a: Seq<LinkInput>, b: Seq<LinkInput>) -> bool {
    a.len() == b.len() && forall|i: int| 0 <= i < a.len() ==> same_input(#[trigger] a[i], b[i])
}

pub fn copy_library(l: &LinkLibrary) -> (r: LinkLibrary)
    ensures
        r == *l,
        r.name@ == l.name@,
        r.kind == l.kind,
        r.source == l.source,
{
    LinkLibrary { name: l.name.clone(), kind: l.kind, source: l.source }
}

pub fn copy_artifact(a: &LinkArtifact) -> (r: LinkArtifact)
    ensures
        r == *a,
        r.path@ == a.path@,
        r.kind == a.kind,
        r.source == a.source,
{
    LinkArtifact { path: a.path.clone(), kind: a.kind, source: a.source }
}

pub fn copy_framework(f: &LinkFramework) -> (r: LinkFramework)
    ensures
        r == *f,
        r.name@ == f.name@,
        r.source == f.source,
{
    LinkFramework { name: f.name.clone(), source: f.source }
}

pub fn copy_input(i: &LinkInput) -> (r: LinkInput)
    ensures
        r == *i,
        same_input(*i, r),
{
    match i {
        LinkInput::Library(l) => LinkInput::Library(copy_library(l)),
        LinkInput::Artifact(a) => LinkInput::Artifact(copy_artifact(a)),
        LinkInput::Framework(f) => LinkInput::Framework(copy_framework(f)),
    }
}

pub fn copy_inputs(v: &Vec<LinkInput>) -> (r: Vec<LinkInput>)
    ensures
        r@ == v@,
        same_inputs(v@, r@),
{
    let mut r: Vec<LinkInput> = Vec::new();
    let mut i: usize = 0;
    while i < v.len()
        invariant
            i <= v@.len(),
            r@.len() == i,
            forall|k: int| 0 <= k < i ==> same_input(#[trigger] v@[k], r@[k]),
            forall|k: int| 0 <= k < i ==> v@[k] == r@[k],
        decreases v@.len() - i,
    {
        r.push(copy_input(&v[i]));
        i = i + 1;
    }
    assert(r@ =~= v@);
    r
}

pub fn copy_libraries(v: &Vec<LinkLibrary>) -> (r: Vec<LinkLibrary>)
    ensures
        r@ == v@,
{
    let mut r: Vec<LinkLibrary> = Vec::new();
    let mut i: usize = 0;
    while i < v.len()
        invariant
            i <= v@.len(),
            r@ == v@.subrange(0, i as int),
        decreases v@.len() - i,
    {
        r.push(copy_library(&v[i]));
        i = i + 1;
        assert(r@ =~= v@.subrange(0, i as int));
    }
    assert(v@.subrange(0, i as int) =~= v@);
    r
}

pub fn copy_frameworks(v: &Vec<LinkFramework>) -> (r: Vec<LinkFramework>)
    ensures
        r@ == v@,
{
    let mut r: Vec<LinkFramework> = Vec::new();
    let mut i: usize = 0;
    while i < v.len()
        invariant
            i <= v@.len(),
            r@ == v@.subrange(0, i as int),
        decreases v@.len() - i,
    {
        r.push(copy_framework(&v[i]));
        i = i + 1;
        assert(r@ =~= v@.subrange(0, i as int));
    }
    assert(v@.subrange(0, i as int) =~= v@);
    r
}

pub fn copy_artifacts(v: &Vec<LinkArtifact>) -> (r: Vec<LinkArtifact>)
    ensures
        r@ == v@,
{
    let mut r: Vec<LinkArtifact> = Vec::new();
    let mut i: usize = 0;
    while i < v.len()
        invariant
            i <= v@.len(),
            r@ == v@.subrange(0, i as int),
        decreases v@.len() - i,
    {
        r.push(copy_artifact(&v[i]));
        i = i + 1;
        assert(r@ =~= v@.subrange(0, i as int));
    }
    assert(v@.subrange(0, i as int) =~= v@);
    r
}

} // verus!
