//! Declaration and type representation types for the LINC IR.
//!
//! These types model extracted C declarations and their type system in a
//! language-neutral binding representation.
use vstd::prelude::*;

use crate::text::{opt_str, strs};

verus! {

/// One extracted declaration or unsupported declaration placeholder.
#[derive(Debug, Clone, PartialEq)]
pub enum BindingItem {
    Function(FunctionBinding),
    Record(RecordBinding),
    Enum(EnumBinding),
    TypeAlias(TypeAliasBinding),
    Variable(VariableBinding),
    Unsupported(UnsupportedItem),
}

#[derive(Debug, Clone, Copy, PartialEq, Eq, Structural)]
pub enum BindingItemKind {
    Function,
    Record,
    Enum,
    TypeAlias,
    Variable,
    Unsupported,
}

/// Type representation used by the extracted IR.
///
/// This is a language-neutral binding model, not a fully lossless C type system.
#[derive(Debug, PartialEq)]
pub enum BindingType {
    Void,
    Bool,
    Char,
    SChar,
    UChar,
    Short,
    UShort,
    Int,
    UInt,
    Long,
    ULong,
    LongLong,
    ULongLong,
    Float,
    Double,
    LongDouble,
    Pointer { pointee: Box<BindingType>, const_pointee: bool, qualifiers: TypeQualifiers },
    Array(Box<BindingType>, Option<u64>),
    Qualified { ty: Box<BindingType>, qualifiers: TypeQualifiers },
    FunctionPointer { return_type: Box<BindingType>, parameters: Vec<BindingType>, variadic: bool },
    TypedefRef(String),
    RecordRef(String),
    EnumRef(String),
    Opaque(String),
}

#[derive(Debug, Clone, Copy, PartialEq, Eq, Default, Structural)]
pub struct TypeQualifiers {
    pub is_const: bool,
    pub is_volatile: bool,
    pub is_restrict: bool,
    pub is_atomic: bool,
}

pub open spec fn no_qualifiers() -> TypeQualifiers {
    TypeQualifiers { is_const: false, is_volatile: false, is_restrict: false, is_atomic: false }
}

/// Structural equality of two types, comparing names by their characters.
pub open spec fn same_type(a: BindingType, b: BindingType) -> bool
    decreases a,
{
    match (a, b) {
        (
            BindingType::Pointer { pointee: p1, const_pointee: c1, qualifiers: q1 },
            BindingType::Pointer { pointee: p2, const_pointee: c2, qualifiers: q2 },
        ) => c1 == c2 && q1 == q2 && same_type(*p1, *p2),
        (BindingType::Array(e1, n1), BindingType::Array(e2, n2)) => n1 == n2 && same_type(*e1, *e2),
        (
            BindingType::Qualified { ty: t1, qualifiers: q1 },
            BindingType::Qualified { ty: t2, qualifiers: q2 },
        ) => q1 == q2 && same_type(*t1, *t2),
        (
            BindingType::FunctionPointer { return_type: r1, parameters: ps1, variadic: v1 },
            BindingType::FunctionPointer { return_type: r2, parameters: ps2, variadic: v2 },
        ) => v1 == v2 && same_type(*r1, *r2) && same_types(ps1@, ps2@),
        (BindingType::TypedefRef(n1), BindingType::TypedefRef(n2)) => n1@ == n2@,
        (BindingType::RecordRef(n1), BindingType::RecordRef(n2)) => n1@ == n2@,
        (BindingType::EnumRef(n1), BindingType::EnumRef(n2)) => n1@ == n2@,
        (BindingType::Opaque(n1), BindingType::Opaque(n2)) => n1@ == n2@,
        (BindingType::Void, BindingType::Void) => true,
        (BindingType::Bool, BindingType::Bool) => true,
        (BindingType::Char, BindingType::Char) => true,
        (BindingType::SChar, BindingType::SChar) => true,
        (BindingType::UChar, BindingType::UChar) => true,
        (BindingType::Short, BindingType::Short) => true,
        (BindingType::UShort, BindingType::UShort) => true,
        (BindingType::Int, BindingType::Int) => true,
        (BindingType::UInt, BindingType::UInt) => true,
        (BindingType::Long, BindingType::Long) => true,
        (BindingType::ULong, BindingType::ULong) => true,
        (BindingType::LongLong, BindingType::LongLong) => true,
        (BindingType::ULongLong, BindingType::ULongLong) => true,
        (BindingType::Float, BindingType::Float) => true,
        (BindingType::Double, BindingType::Double) => true,
        (BindingType::LongDouble, BindingType::LongDouble) => true,
        _ => false,
    }
}

/// Pointwise `same_type` of two type sequences.
pub open spec fn same_types(a: Seq<BindingType>, b: Seq<BindingType>) -> bool
    decreases a,
{
    a.len() == b.len() && (a.len() == 0 || (same_type(a[0], b[0]) && same_types(
        a.subrange(1, a.len() as int),
        b.subrange(1, b.len() as int),
    )))
}

/// `BindingType::is_void`: `Void`, possibly under qualifiers.
pub open spec fn spec_is_void(t: BindingType) -> bool
    decreases t,
{
    match t {
        BindingType::Void => true,
        BindingType::Qualified { ty, .. } => spec_is_void(*ty),
        _ => false,
    }
}

impl BindingType {
    pub fn ptr(pointee: BindingType) -> (r: Self)
        ensures
            r == (BindingType::Pointer {
                pointee: Box::new(pointee),
                const_pointee: false,
                qualifiers: no_qualifiers(),
            }),
    {
        BindingType::Pointer {
            pointee: Box::new(pointee),
            const_pointee: false,
            qualifiers: TypeQualifiers {
                is_const: false,
                is_volatile: false,
                is_restrict: false,
                is_atomic: false,
            },
        }
    }

    pub fn const_ptr(pointee: BindingType) -> (r: Self)
        ensures
            r == (BindingType::Pointer {
                pointee: Box::new(pointee),
                const_pointee: true,
                qualifiers: no_qualifiers(),
            }),
    {
        BindingType::Pointer {
            pointee: Box::new(pointee),
            const_pointee: true,
            qualifiers: TypeQualifiers {
                is_const: false,
                is_volatile: false,
                is_restrict: false,
                is_atomic: false,
            },
        }
    }

    /// Wraps `ty` in qualifiers, unless they are all unset.
    pub fn qualified(ty: BindingType, qualifiers: TypeQualifiers) -> (r: Self)
        ensures
            qualifiers == no_qualifiers() ==> r == ty,
            qualifiers != no_qualifiers() ==> r == (BindingType::Qualified {
                ty: Box::new(ty),
                qualifiers,
            }),
    {
        if !qualifiers.is_const && !qualifiers.is_volatile && !qualifiers.is_restrict
            && !qualifiers.is_atomic {
            ty
        } else {
            BindingType::Qualified { ty: Box::new(ty), qualifiers }
        }
    }

    pub fn is_void(&self) -> (r: bool)
        ensures
            r == spec_is_void(*self),
        decreases self,
    {
        match self {
            BindingType::Void => true,
            BindingType::Qualified { ty, .. } => ty.is_void(),
            _ => false,
        }
    }

    /// An independent copy of this type.
    pub fn duplicate(&self) -> (r: BindingType)
        ensures
            same_type(*self, r),
        decreases self,
    {
        match self {
            BindingType::Void => BindingType::Void,
            BindingType::Bool => BindingType::Bool,
            BindingType::Char => BindingType::Char,
            BindingType::SChar => BindingType::SChar,
            BindingType::UChar => BindingType::UChar,
            BindingType::Short => BindingType::Short,
            BindingType::UShort => BindingType::UShort,
            BindingType::Int => BindingType::Int,
            BindingType::UInt => BindingType::UInt,
            BindingType::Long => BindingType::Long,
            BindingType::ULong => BindingType::ULong,
            BindingType::LongLong => BindingType::LongLong,
            BindingType::ULongLong => BindingType::ULongLong,
            BindingType::Float => BindingType::Float,
            BindingType::Double => BindingType::Double,
            BindingType::LongDouble => BindingType::LongDouble,
            BindingType::Pointer { pointee, const_pointee, qualifiers } => BindingType::Pointer {
                pointee: Box::new(pointee.duplicate()),
                const_pointee: *const_pointee,
                qualifiers: *qualifiers,
            },
            BindingType::Array(e, n) => BindingType::Array(Box::new(e.duplicate()), *n),
            BindingType::Qualified { ty, qualifiers } => BindingType::Qualified {
                ty: Box::new(ty.duplicate()),
                qualifiers: *qualifiers,
            },
            BindingType::FunctionPointer { return_type, parameters, variadic } => {
                let r = return_type.duplicate();
                let ps = duplicate_types(parameters);
                BindingType::FunctionPointer {
                    return_type: Box::new(r),
                    parameters: ps,
                    variadic: *variadic,
                }
            },
            BindingType::TypedefRef(n) => BindingType::TypedefRef(n.clone()),
            BindingType::RecordRef(n) => BindingType::RecordRef(n.clone()),
            BindingType::EnumRef(n) => BindingType::EnumRef(n.clone()),
            BindingType::Opaque(n) => BindingType::Opaque(n.clone()),
        }
    }
}

impl Clone for BindingType {
    fn clone(&self) -> Self {
        self.duplicate()
    }
}

/// `same_types` holds exactly when lengths agree and elements agree pointwise.
pub proof fn lemma_same_types(a: Seq<BindingType>, b: Seq<BindingType>)
    ensures
        same_types(a, b) <==> (a.len() == b.len() && forall|i: int|
            0 <= i < a.len() ==> same_type(#[trigger] a[i], b[i])),
    decreases a.len(),
{
    if a.len() == b.len() && a.len() > 0 {
        let a1 = a.subrange(1, a.len() as int);
        let b1 = b.subrange(1, b.len() as int);
        lemma_same_types(a1, b1);
        if forall|i: int| 0 <= i < a.len() ==> same_type(#[trigger] a[i], b[i]) {
            assert forall|i: int| 0 <= i < a1.len() implies same_type(#[trigger] a1[i], b1[i]) by {
                assert(a1[i] == a[i + 1]);
                assert(b1[i] == b[i + 1]);
            }
        }
        if same_types(a, b) {
            assert forall|i: int| 0 <= i < a.len() implies same_type(#[trigger] a[i], b[i]) by {
                if i > 0 {
                    assert(a1[i - 1] == a[i]);
                    assert(b1[i - 1] == b[i]);
                }
            }
        }
    }
}

/// A type by its structure, names by their characters and parameter lists as
/// sequences.
pub enum TypeModel {
    Void,
    Bool,
    Char,
    SChar,
    UChar,
    Short,
    UShort,
    Int,
    UInt,
    Long,
    ULong,
    LongLong,
    ULongLong,
    Float,
    Double,
    LongDouble,
    Pointer(Box<TypeModel>, bool, TypeQualifiers),
    Array(Box<TypeModel>, Option<u64>),
    Qualified(Box<TypeModel>, TypeQualifiers),
    FunctionPointer(Box<TypeModel>, Seq<TypeModel>, bool),
    TypedefRef(Seq<char>),
    RecordRef(Seq<char>),
    EnumRef(Seq<char>),
    Opaque(Seq<char>),
}

/// The model of a type.
pub open spec fn type_model(t: BindingType) -> TypeModel
    decreases t,
{
    match t {
        BindingType::Void => TypeModel::Void,
        BindingType::Bool => TypeModel::Bool,
        BindingType::Char => TypeModel::Char,
        BindingType::SChar => TypeModel::SChar,
        BindingType::UChar => TypeModel::UChar,
        BindingType::Short => TypeModel::Short,
        BindingType::UShort => TypeModel::UShort,
        BindingType::Int => TypeModel::Int,
        BindingType::UInt => TypeModel::UInt,
        BindingType::Long => TypeModel::Long,
        BindingType::ULong => TypeModel::ULong,
        BindingType::LongLong => TypeModel::LongLong,
        BindingType::ULongLong => TypeModel::ULongLong,
        BindingType::Float => TypeModel::Float,
        BindingType::Double => TypeModel::Double,
        BindingType::LongDouble => TypeModel::LongDouble,
        BindingType::Pointer { pointee, const_pointee, qualifiers } => TypeModel::Pointer(
            Box::new(type_model(*pointee)),
            const_pointee,
            qualifiers,
        ),
        BindingType::Array(e, n) => TypeModel::Array(Box::new(type_model(*e)), n),
        BindingType::Qualified { ty, qualifiers } => TypeModel::Qualified(
            Box::new(type_model(*ty)),
            qualifiers,
        ),
        BindingType::FunctionPointer { return_type, parameters, variadic } => TypeModel::FunctionPointer(
            Box::new(type_model(*return_type)),
            type_models(parameters@),
            variadic,
        ),
        BindingType::TypedefRef(n) => TypeModel::TypedefRef(n@),
        BindingType::RecordRef(n) => TypeModel::RecordRef(n@),
        BindingType::EnumRef(n) => TypeModel::EnumRef(n@),
        BindingType::Opaque(n) => TypeModel::Opaque(n@),
    }
}

/// Models of a sequence of types.
pub open spec fn type_models(ps: Seq<BindingType>) -> Seq<TypeModel>
    decreases ps,
{
    if ps.len() == 0 {
        seq![]
    } else {
        seq![type_model(ps[0])] + type_models(ps.subrange(1, ps.len() as int))
    }
}

/// Structurally equal types have equal models.
pub proof fn lemma_same_type_model(a: BindingType, b: BindingType)
    requires
        same_type(a, b),
    ensures
        type_model(a) == type_model(b),
    decreases a,
{
    match (a, b) {
        (
            BindingType::Pointer { pointee: p1, .. },
            BindingType::Pointer { pointee: p2, .. },
        ) => {
            lemma_same_type_model(*p1, *p2);
        },
        (BindingType::Array(e1, _), BindingType::Array(e2, _)) => {
            lemma_same_type_model(*e1, *e2);
        },
        (BindingType::Qualified { ty: t1, .. }, BindingType::Qualified { ty: t2, .. }) => {
            lemma_same_type_model(*t1, *t2);
        },
        (
            BindingType::FunctionPointer { return_type: r1, parameters: ps1, .. },
            BindingType::FunctionPointer { return_type: r2, parameters: ps2, .. },
        ) => {
            lemma_same_type_model(*r1, *r2);
            lemma_same_types_models(ps1@, ps2@);
        },
        _ => {},
    }
}

pub proof fn lemma_same_types_models(a: Seq<BindingType>, b: Seq<BindingType>)
    requires
        same_types(a, b),
    ensures
        type_models(a) == type_models(b),
    decreases a,
{
    if a.len() > 0 {
        lemma_same_type_model(a[0], b[0]);
        lemma_same_types_models(a.subrange(1, a.len() as int), b.subrange(1, b.len() as int));
    }
}

/// Length and elements of the models of a sequence of types.
pub proof fn lemma_type_models_index(ps: Seq<BindingType>)
    ensures
        type_models(ps).len() == ps.len(),
        forall|i: int| 0 <= i < ps.len() ==> type_models(ps)[i] == type_model(#[trigger] ps[i]),
    decreases ps.len(),
{
    if ps.len() > 0 {
        let rest = ps.subrange(1, ps.len() as int);
        lemma_type_models_index(rest);
        assert forall|i: int| 0 <= i < ps.len() implies type_models(ps)[i] == type_model(#[trigger] ps[i]) by {
            if i > 0 {
                assert(rest[i - 1] == ps[i]);
            }
        }
    }
}

/// Copies every type of a vector.
pub fn duplicate_types(v: &Vec<BindingType>) -> (r: Vec<BindingType>)
    ensures
        same_types(v@, r@),
    decreases v,
{
    let mut r: Vec<BindingType> = Vec::new();
    let mut i: usize = 0;
    while i < v.len()
        invariant
            i <= v@.len(),
            r@.len() == i,
            forall|k: int| 0 <= k < i ==> same_type(#[trigger] v@[k], r@[k]),
        decreases v@.len() - i,
    {
        assert(decreases_to!(v => v@[i as int]));
        r.push(v[i].duplicate());
        i = i + 1;
    }
    proof {
        lemma_same_types(v@, r@);
    }
    r
}

/// Calling convention attached to an extracted function declaration.
#[derive(Debug, Clone, PartialEq, Eq)]
pub enum CallingConvention {
    C,
    Cdecl,
    Stdcall,
    Fastcall,
    Vectorcall,
    Thiscall,
    Unknown(String),
}

/// Extracted function declaration.
///
/// `name` is always present and `source_offset` is best-effort provenance.
#[derive(Debug, Clone, PartialEq)]
pub struct FunctionBinding {
    pub name: String,
    pub calling_convention: CallingConvention,
    pub parameters: Vec<ParameterBinding>,
    pub return_type: BindingType,
    pub variadic: bool,
    pub source_offset: Option<usize>,
}

/// One function parameter; unnamed parameters have `name == None`.
#[derive(Debug, Clone, PartialEq)]
pub struct ParameterBinding {
    pub name: Option<String>,
    pub ty: BindingType,
}

/// Kind of record declaration represented by `RecordBinding`.
#[derive(Debug, Clone, Copy, PartialEq, Eq, Structural)]
pub enum RecordKind {
    Struct,
    Union,
}

/// One field inside a non-opaque record.
#[derive(Debug, Clone, PartialEq)]
pub struct FieldBinding {
    pub name: Option<String>,
    pub ty: BindingType,
    pub bit_width: Option<u64>,
    pub layout: Option<FieldLayout>,
}

impl FieldBinding {
    pub fn is_bitfield(&self) -> (r: bool)
        ensures
            r == self.bit_width.is_some(),
    {
        self.bit_width.is_some()
    }
}

#[derive(Debug, Clone, Copy, PartialEq, Eq, Structural)]
pub struct FieldLayout {
    pub offset_bytes: Option<u64>,
}

/// Extracted record declaration; `fields == None` means opaque or field-incomplete.
#[derive(Debug, Clone, PartialEq)]
pub struct RecordBinding {
    pub kind: RecordKind,
    pub name: Option<String>,
    pub fields: Option<Vec<FieldBinding>>,
    pub representation: Option<RecordRepresentation>,
    pub abi_confidence: Option<AbiConfidence>,
    pub source_offset: Option<usize>,
}

impl RecordBinding {
    pub fn is_opaque(&self) -> (r: bool)
        ensures
            r == self.fields.is_none(),
    {
        self.fields.is_none()
    }
}

#[derive(Debug, Clone, PartialEq, Eq)]
pub struct RecordRepresentation {
    pub size: Option<u64>,
    pub align: Option<u64>,
    pub completeness: Option<String>,
}

/// One enum constant.
#[derive(Debug, Clone, PartialEq)]
pub struct EnumVariant {
    pub name: String,
    pub value: Option<i128>,
}

/// Extracted enum declaration; anonymous enums have `name == None`.
#[derive(Debug, Clone, PartialEq)]
pub struct EnumBinding {
    pub name: Option<String>,
    pub variants: Vec<EnumVariant>,
    pub representation: Option<EnumRepresentation>,
    pub abi_confidence: Option<AbiConfidence>,
    pub source_offset: Option<usize>,
}

#[derive(Debug, Clone, Copy, PartialEq, Eq, Structural)]
pub struct EnumRepresentation {
    pub underlying_size: Option<u64>,
    pub is_signed: Option<bool>,
}

/// Extracted typedef or alias declaration.
#[derive(Debug, Clone, PartialEq)]
pub struct TypeAliasBinding {
    pub name: String,
    pub target: BindingType,
    pub canonical_resolution: Option<AliasResolution>,
    pub abi_confidence: Option<AbiConfidence>,
    pub source_offset: Option<usize>,
}

#[derive(Debug, Clone, PartialEq)]
pub struct AliasResolution {
    pub alias_chain: Vec<String>,
    pub terminal_target: BindingType,
}

#[derive(Debug, Clone, Copy, PartialEq, Eq, Structural)]
pub enum AbiConfidence {
    DeclaredOnly,
    LayoutProbed,
    FieldOffsetsProbed,
    RepresentationProbed,
    PartialBitfieldLayout,
}

/// Extracted external variable declaration.
#[derive(Debug, Clone, PartialEq)]
pub struct VariableBinding {
    pub name: String,
    pub ty: BindingType,
    pub source_offset: Option<usize>,
}

/// Placeholder for a declaration that was recognized but could not be modeled directly.
#[derive(Debug, Clone, PartialEq, Eq)]
pub struct UnsupportedItem {
    pub name: Option<String>,
    pub reason: String,
    pub source_offset: Option<usize>,
}

/// Compiler-probed layout evidence for a named type.
#[derive(Debug, Clone, PartialEq, Eq)]
pub struct TypeLayout {
    pub name: String,
    pub size: u64,
    pub align: u64,
}

/// Source offset of an item, whatever its kind.
pub open spec fn item_offset(item: BindingItem) -> Option<usize> {
    match item {
        BindingItem::Function(f) => f.source_offset,
        BindingItem::Record(r) => r.source_offset,
        BindingItem::Enum(e) => e.source_offset,
        BindingItem::TypeAlias(t) => t.source_offset,
        BindingItem::Variable(v) => v.source_offset,
        BindingItem::Unsupported(u) => u.source_offset,
    }
}

/// Name of an item, whatever its kind.
pub open spec fn item_name(item: BindingItem) -> Option<Seq<char>> {
    match item {
        BindingItem::Function(f) => Some(f.name@),
        BindingItem::Record(r) => opt_str(r.name),
        BindingItem::Enum(e) => opt_str(e.name),
        BindingItem::TypeAlias(t) => Some(t.name@),
        BindingItem::Variable(v) => Some(v.name@),
        BindingItem::Unsupported(u) => opt_str(u.name),
    }
}

/// Kind of an item.
pub open spec fn item_kind(item: BindingItem) -> BindingItemKind {
    match item {
        BindingItem::Function(_) => BindingItemKind::Function,
        BindingItem::Record(_) => BindingItemKind::Record,
        BindingItem::Enum(_) => BindingItemKind::Enum,
        BindingItem::TypeAlias(_) => BindingItemKind::TypeAlias,
        BindingItem::Variable(_) => BindingItemKind::Variable,
        BindingItem::Unsupported(_) => BindingItemKind::Unsupported,
    }
}

pub fn item_offset_exec(item: &BindingItem) -> (r: Option<usize>)
    ensures
        r == item_offset(*item),
{
    match item {
        BindingItem::Function(f) => f.source_offset,
        BindingItem::Record(r) => r.source_offset,
        BindingItem::Enum(e) => e.source_offset,
        BindingItem::TypeAlias(t) => t.source_offset,
        BindingItem::Variable(v) => v.source_offset,
        BindingItem::Unsupported(u) => u.source_offset,
    }
}

/// Views of the alias chain names.
pub open spec fn chain_view(r: AliasResolution) -> Seq<Seq<char>> {
    strs(r.alias_chain@)
}

} // verus!
