//! Frontend-neutral source contract types: the normalized declarations, macros and
//! link requirements that a frontend produces.
use vstd::prelude::*;

verus! {

#[derive(Debug, Clone, PartialEq, Default)]
pub struct SourcePackage {
    pub source_path: Option<String>,
    pub declarations: Vec<SourceDeclaration>,
    pub macros: Vec<SourceMacro>,
    pub link_requirements: Vec<SourceLinkRequirement>,
    pub include_dirs: Vec<String>,
    pub entry_headers: Vec<String>,
    pub defines: Vec<(String, Option<String>)>,
    pub target_triple: Option<String>,
    pub compiler_command: Option<String>,
    pub compiler_version: Option<String>,
}

#[derive(Debug, Clone, PartialEq)]
pub enum SourceDeclaration {
    Function(SourceFunction),
    Record(SourceRecord),
    Enum(SourceEnum),
    TypeAlias(SourceTypeAlias),
    Variable(SourceVariable),
}

#[derive(Debug, Clone, PartialEq)]
pub struct SourceFunction {
    pub name: String,
    pub parameters: Vec<SourceParameter>,
    pub return_type: SourceType,
    pub variadic: bool,
    pub source_offset: Option<usize>,
}

#[derive(Debug, Clone, PartialEq)]
pub struct SourceParameter {
    pub name: Option<String>,
    pub ty: SourceType,
}

#[derive(Debug, Clone, PartialEq)]
pub struct SourceRecord {
    pub name: Option<String>,
    pub is_union: bool,
    pub fields: Option<Vec<SourceField>>,
    pub source_offset: Option<usize>,
}

#[derive(Debug, Clone, PartialEq)]
pub struct SourceField {
    pub name: Option<String>,
    pub ty: SourceType,
    pub bit_width: Option<u64>,
}

#[derive(Debug, Clone, PartialEq)]
pub struct SourceEnum {
    pub name: Option<String>,
    pub variants: Vec<SourceEnumVariant>,
    pub source_offset: Option<usize>,
}

#[derive(Debug, Clone, PartialEq)]
pub struct SourceEnumVariant {
    pub name: String,
    pub value: Option<i128>,
}

#[derive(Debug, Clone, PartialEq)]
pub struct SourceTypeAlias {
    pub name: String,
    pub target: SourceType,
    pub source_offset: Option<usize>,
}

#[derive(Debug, Clone, PartialEq)]
pub struct SourceVariable {
    pub name: String,
    pub ty: SourceType,
    pub source_offset: Option<usize>,
}

#[derive(Debug, Clone, PartialEq, Eq)]
pub struct SourceMacro {
    pub name: String,
    pub body: String,
    pub function_like: bool,
}

#[derive(Debug, Clone, PartialEq, Eq)]
pub struct SourceLinkRequirement {
    pub name: String,
    pub kind: SourceLinkKind,
}

#[derive(Debug, Clone, Copy, PartialEq, Eq, Default, Structural)]
pub enum SourceLinkKind {
    #[default]
    Library,
    StaticLibrary,
    DynamicLibrary,
    Framework,
}

#[derive(Debug, PartialEq)]
pub enum SourceType {
    Void,
    Bool,
    Char,
    SChar,
    UChar,
    Short,
    UShort,
    Int,
    UInt,
    Long,
    ULong,
    LongLong,
    ULongLong,
    Float,
    Double,
    LongDouble,
    Pointer(Box<SourceType>),
    ConstPointer(Box<SourceType>),
    Array(Box<SourceType>, Option<u64>),
    FunctionPointer { return_type: Box<SourceType>, parameters: Vec<SourceType>, variadic: bool },
    TypedefRef(String),
    RecordRef(String),
    EnumRef(String),
    Opaque(String),
    Const(Box<SourceType>),
    Volatile(Box<SourceType>),
}

impl Clone for SourceType {
    fn clone(&self) -> Self {
        self.duplicate()
    }
}

/// Structural equality of intake types (what the derived `==` compares).
pub open spec fn same_source(a: SourceType, b: SourceType) -> bool
    decreases a,
{
    match a {
        SourceType::Pointer(x) => b matches SourceType::Pointer(y) && same_source(*x, *y),
        SourceType::ConstPointer(x) => b matches SourceType::ConstPointer(y) && same_source(*x, *y),
        SourceType::Array(x, n) => b matches SourceType::Array(y, m) && m == n && same_source(*x, *y),
        SourceType::FunctionPointer { return_type, parameters, variadic } => b matches SourceType::FunctionPointer {
            return_type: r,
            parameters: ps,
            variadic: v,
        } && v == variadic && same_source(*return_type, *r) && same_sources(parameters@, ps@),
        SourceType::Const(x) => b matches SourceType::Const(y) && same_source(*x, *y),
        SourceType::Volatile(x) => b matches SourceType::Volatile(y) && same_source(*x, *y),
        SourceType::TypedefRef(n) => b matches SourceType::TypedefRef(m) && m@ == n@,
        SourceType::RecordRef(n) => b matches SourceType::RecordRef(m) && m@ == n@,
        SourceType::EnumRef(n) => b matches SourceType::EnumRef(m) && m@ == n@,
        SourceType::Opaque(n) => b matches SourceType::Opaque(m) && m@ == n@,
        _ => a == b,
    }
}

pub open spec fn same_sources(a: Seq<SourceType>, b: Seq<SourceType>) -> bool
    decreases a,
{
    a.len() == b.len() && (a.len() == 0 || (same_source(a[0], b[0]) && same_sources(
        a.subrange(1, a.len() as int),
        b.subrange(1, b.len() as int),
    )))
}

impl SourceType {
    /// An independent copy of this type.
    pub fn duplicate(&self) -> (r: SourceType)
        ensures
            same_source(*self, r),
        decreases self,
    {
        match self {
            SourceType::Void => SourceType::Void,
            SourceType::Bool => SourceType::Bool,
            SourceType::Char => SourceType::Char,
            SourceType::SChar => SourceType::SChar,
            SourceType::UChar => SourceType::UChar,
            SourceType::Short => SourceType::Short,
            SourceType::UShort => SourceType::UShort,
            SourceType::Int => SourceType::Int,
            SourceType::UInt => SourceType::UInt,
            SourceType::Long => SourceType::Long,
            SourceType::ULong => SourceType::ULong,
            SourceType::LongLong => SourceType::LongLong,
            SourceType::ULongLong => SourceType::ULongLong,
            SourceType::Float => SourceType::Float,
            SourceType::Double => SourceType::Double,
            SourceType::LongDouble => SourceType::LongDouble,
            SourceType::Pointer(t) => SourceType::Pointer(Box::new(t.duplicate())),
            SourceType::ConstPointer(t) => SourceType::ConstPointer(Box::new(t.duplicate())),
            SourceType::Array(t, n) => SourceType::Array(Box::new(t.duplicate()), *n),
            SourceType::FunctionPointer { return_type, parameters, variadic } => {
                let r = return_type.duplicate();
                let ps = duplicate_source_types(parameters);
                SourceType::FunctionPointer {
                    return_type: Box::new(r),
                    parameters: ps,
                    variadic: *variadic,
                }
            },
            SourceType::TypedefRef(n) => SourceType::TypedefRef(n.clone()),
            SourceType::RecordRef(n) => SourceType::RecordRef(n.clone()),
            SourceType::EnumRef(n) => SourceType::EnumRef(n.clone()),
            SourceType::Opaque(n) => SourceType::Opaque(n.clone()),
            SourceType::Const(t) => SourceType::Const(Box::new(t.duplicate())),
            SourceType::Volatile(t) => SourceType::Volatile(Box::new(t.duplicate())),
        }
    }
}

proof fn lemma_same_sources(a: Seq<SourceType>, b: Seq<SourceType>)
    requires
        a.len() == b.len(),
        forall|i: int| 0 <= i < a.len() ==> same_source(#[trigger] a[i], b[i]),
    ensures
        same_sources(a, b),
    decreases a.len(),
{
    if a.len() > 0 {
        let a1 = a.subrange(1, a.len() as int);
        let b1 = b.subrange(1, b.len() as int);
        assert forall|i: int| 0 <= i < a1.len() implies same_source(#[trigger] a1[i], b1[i]) by {
            assert(a1[i] == a[i + 1]);
            assert(b1[i] == b[i + 1]);
        }
        lemma_same_sources(a1, b1);
        assert(same_source(a[0], b[0]));
    }
}

/// Copies every type of a vector.
fn duplicate_source_types(v: &Vec<SourceType>) -> (r: Vec<SourceType>)
    ensures
        same_sources(v@, r@),
    decreases v,
{
    let mut ps: Vec<SourceType> = Vec::new();
    let mut i: usize = 0;
    while i < v.len()
        invariant
            i <= v@.len(),
            ps@.len() == i,
            forall|k: int| 0 <= k < i ==> same_source(#[trigger] v@[k], ps@[k]),
        decreases v@.len() - i,
    {
        assert(decreases_to!(v => v@[i as int]));
        ps.push(v[i].duplicate());
        i = i + 1;
    }
    proof {
        lemma_same_sources(v@, ps@);
    }
    ps
}

} // verus!
