//! Adapters between the IR's `BindingPackage` and the intake layer's `SourcePackage`.
//!
//! `from_binding_package` turns an extracted package into the intake contract, and
//! `to_binding_package` turns an intake package back into the IR that the rest of
//! LINC operates on.
use vstd::prelude::*;

use crate::intake::source::{
    same_source, same_sources,
    SourceDeclaration, SourceEnum, SourceEnumVariant, SourceField, SourceFunction,
    SourceLinkKind, SourceLinkRequirement, SourceMacro, SourcePackage, SourceParameter,
    SourceRecord, SourceType, SourceTypeAlias, SourceVariable,
};
use crate::ir::{lemma_filter_keeps_all, link_surface_empty_but_libraries};
use crate::ir::types::{item_kind, item_name, no_qualifiers};
use crate::ir::{
    BindingDefine, BindingInputs, BindingItem, BindingLinkSurface, BindingPackage, BindingTarget,
    BindingType, CallingConvention, EnumBinding, EnumVariant, FieldBinding, FunctionBinding,
    LinkLibrary, LinkLibraryKind, LinkRequirementSource, MacroBinding, MacroCategory, MacroForm,
    MacroKind, ParameterBinding, RecordBinding, RecordKind, TypeAliasBinding, TypeQualifiers,
    VariableBinding, LINC_VERSION, SCHEMA_VERSION,
};
use crate::text::clone_opt;
use crate::text::clone_strings;

verus! {

// ---------------------------------------------------------------------------
// Type conversions
// ---------------------------------------------------------------------------

/// `s` is the intake form of the IR type `b`: const pointers become
/// `ConstPointer`, const (else volatile) qualification becomes `Const` (else
/// `Volatile`), other qualifiers are dropped.
pub open spec fn b2s(b: BindingType, s: SourceType) -> bool
    decreases b,
{
    match b {
        BindingType::Void => s is Void,
        BindingType::Bool => s is Bool,
        BindingType::Char => s is Char,
        BindingType::SChar => s is SChar,
        BindingType::UChar => s is UChar,
        BindingType::Short => s is Short,
        BindingType::UShort => s is UShort,
        BindingType::Int => s is Int,
        BindingType::UInt => s is UInt,
        BindingType::Long => s is Long,
        BindingType::ULong => s is ULong,
        BindingType::LongLong => s is LongLong,
        BindingType::ULongLong => s is ULongLong,
        BindingType::Float => s is Float,
        BindingType::Double => s is Double,
        BindingType::LongDouble => s is LongDouble,
        BindingType::Pointer { pointee, const_pointee, .. } => if const_pointee {
            s matches SourceType::ConstPointer(x) && b2s(*pointee, *x)
        } else {
            s matches SourceType::Pointer(x) && b2s(*pointee, *x)
        },
        BindingType::Array(e, n) => s matches SourceType::Array(x, m) && m == n && b2s(*e, *x),
        BindingType::Qualified { ty, qualifiers } => if qualifiers.is_const {
            s matches SourceType::Const(x) && b2s(*ty, *x)
        } else if qualifiers.is_volatile {
            s matches SourceType::Volatile(x) && b2s(*ty, *x)
        } else {
            b2s(*ty, s)
        },
        BindingType::FunctionPointer { return_type, parameters, variadic } => s matches SourceType::FunctionPointer {
            return_type: r,
            parameters: ps,
            variadic: v,
        } && v == variadic && b2s(*return_type, *r) && b2s_all(parameters@, ps@),
        BindingType::TypedefRef(n) => s matches SourceType::TypedefRef(m) && m == n,
        BindingType::RecordRef(n) => s matches SourceType::RecordRef(m) && m == n,
        BindingType::EnumRef(n) => s matches SourceType::EnumRef(m) && m == n,
        BindingType::Opaque(n) => s matches SourceType::Opaque(m) && m == n,
    }
}

pub open spec fn b2s_all(a: Seq<BindingType>, b: Seq<SourceType>) -> bool
    decreases a,
{
    a.len() == b.len() && (a.len() == 0 || (b2s(a[0], b[0]) && b2s_all(
        a.subrange(1, a.len() as int),
        b.subrange(1, b.len() as int),
    )))
}

pub open spec fn const_qualifiers() -> TypeQualifiers {
    TypeQualifiers { is_const: true, ..no_qualifiers() }
}

pub open spec fn volatile_qualifiers() -> TypeQualifiers {
    TypeQualifiers { is_volatile: true, ..no_qualifiers() }
}

/// `b` is the IR form of the intake type `s`.
pub open spec fn s2b(s: SourceType, b: BindingType) -> bool
    decreases s,
{
    match s {
        SourceType::Void => b is Void,
        SourceType::Bool => b is Bool,
        SourceType::Char => b is Char,
        SourceType::SChar => b is SChar,
        SourceType::UChar => b is UChar,
        SourceType::Short => b is Short,
        SourceType::UShort => b is UShort,
        SourceType::Int => b is Int,
        SourceType::UInt => b is UInt,
        SourceType::Long => b is Long,
        SourceType::ULong => b is ULong,
        SourceType::LongLong => b is LongLong,
        SourceType::ULongLong => b is ULongLong,
        SourceType::Float => b is Float,
        SourceType::Double => b is Double,
        SourceType::LongDouble => b is LongDouble,
        SourceType::Pointer(x) => b matches BindingType::Pointer { pointee, const_pointee, qualifiers }
            && !const_pointee && qualifiers == no_qualifiers() && s2b(*x, *pointee),
        SourceType::ConstPointer(x) => b matches BindingType::Pointer {
            pointee,
            const_pointee,
            qualifiers,
        } && const_pointee && qualifiers == no_qualifiers() && s2b(*x, *pointee),
        SourceType::Array(x, n) => b matches BindingType::Array(e, m) && m == n && s2b(*x, *e),
        SourceType::FunctionPointer { return_type, parameters, variadic } => b matches BindingType::FunctionPointer {
            return_type: r,
            parameters: ps,
            variadic: v,
        } && v == variadic && s2b(*return_type, *r) && s2b_all(parameters@, ps@),
        SourceType::TypedefRef(n) => b matches BindingType::TypedefRef(m) && m == n,
        SourceType::RecordRef(n) => b matches BindingType::RecordRef(m) && m == n,
        SourceType::EnumRef(n) => b matches BindingType::EnumRef(m) && m == n,
        SourceType::Opaque(n) => b matches BindingType::Opaque(m) && m == n,
        SourceType::Const(x) => b matches BindingType::Qualified { ty, qualifiers } && qualifiers
            == const_qualifiers() && s2b(*x, *ty),
        SourceType::Volatile(x) => b matches BindingType::Qualified { ty, qualifiers }
            && qualifiers == volatile_qualifiers() && s2b(*x, *ty),
    }
}

pub open spec fn s2b_all(a: Seq<SourceType>, b: Seq<BindingType>) -> bool
    decreases a,
{
    a.len() == b.len() && (a.len() == 0 || (s2b(a[0], b[0]) && s2b_all(
        a.subrange(1, a.len() as int),
        b.subrange(1, b.len() as int),
    )))
}

proof fn lemma_b2s_all(a: Seq<BindingType>, b: Seq<SourceType>)
    ensures
        b2s_all(a, b) <==> (a.len() == b.len() && forall|i: int|
            0 <= i < a.len() ==> b2s(#[trigger] a[i], b[i])),
    decreases a.len(),
{
    if a.len() == b.len() && a.len() > 0 {
        let a1 = a.subrange(1, a.len() as int);
        let b1 = b.subrange(1, b.len() as int);
        lemma_b2s_all(a1, b1);
        if forall|i: int| 0 <= i < a.len() ==> b2s(#[trigger] a[i], b[i]) {
            assert forall|i: int| 0 <= i < a1.len() implies b2s(#[trigger] a1[i], b1[i]) by {
                assert(a1[i] == a[i + 1]);
                assert(b1[i] == b[i + 1]);
            }
        }
        if b2s_all(a, b) {
            assert forall|i: int| 0 <= i < a.len() implies b2s(#[trigger] a[i], b[i]) by {
                if i > 0 {
                    assert(a1[i - 1] == a[i]);
                    assert(b1[i - 1] == b[i]);
                }
            }
        }
    }
}

proof fn lemma_s2b_all(a: Seq<SourceType>, b: Seq<BindingType>)
    ensures
        s2b_all(a, b) <==> (a.len() == b.len() && forall|i: int|
            0 <= i < a.len() ==> s2b(#[trigger] a[i], b[i])),
    decreases a.len(),
{
    if a.len() == b.len() && a.len() > 0 {
        let a1 = a.subrange(1, a.len() as int);
        let b1 = b.subrange(1, b.len() as int);
        lemma_s2b_all(a1, b1);
        if forall|i: int| 0 <= i < a.len() ==> s2b(#[trigger] a[i], b[i]) {
            assert forall|i: int| 0 <= i < a1.len() implies s2b(#[trigger] a1[i], b1[i]) by {
                assert(a1[i] == a[i + 1]);
                assert(b1[i] == b[i + 1]);
            }
        }
        if s2b_all(a, b) {
            assert forall|i: int| 0 <= i < a.len() implies s2b(#[trigger] a[i], b[i]) by {
                if i > 0 {
                    assert(a1[i - 1] == a[i]);
                    assert(b1[i - 1] == b[i]);
                }
            }
        }
    }
}

/// The intake form of an IR type.
pub fn binding_type_to_source(ty: &BindingType) -> (r: SourceType)
    ensures
        b2s(*ty, r),
    decreases ty,
{
    match ty {
        BindingType::Void => SourceType::Void,
        BindingType::Bool => SourceType::Bool,
        BindingType::Char => SourceType::Char,
        BindingType::SChar => SourceType::SChar,
        BindingType::UChar => SourceType::UChar,
        BindingType::Short => SourceType::Short,
        BindingType::UShort => SourceType::UShort,
        BindingType::Int => SourceType::Int,
        BindingType::UInt => SourceType::UInt,
        BindingType::Long => SourceType::Long,
        BindingType::ULong => SourceType::ULong,
        BindingType::LongLong => SourceType::LongLong,
        BindingType::ULongLong => SourceType::ULongLong,
        BindingType::Float => SourceType::Float,
        BindingType::Double => SourceType::Double,
        BindingType::LongDouble => SourceType::LongDouble,
        BindingType::Pointer { pointee, const_pointee, .. } => {
            let inner = binding_type_to_source(pointee);
            if *const_pointee {
                SourceType::ConstPointer(Box::new(inner))
            } else {
                SourceType::Pointer(Box::new(inner))
            }
        },
        BindingType::Array(elem, size) => SourceType::Array(
            Box::new(binding_type_to_source(elem)),
            *size,
        ),
        BindingType::Qualified { ty: inner_ty, qualifiers } => {
            let inner = binding_type_to_source(inner_ty);
            if qualifiers.is_const {
                SourceType::Const(Box::new(inner))
            } else if qualifiers.is_volatile {
                SourceType::Volatile(Box::new(inner))
            } else {
                inner
            }
        },
        BindingType::FunctionPointer { return_type, parameters, variadic } => {
            let r = binding_type_to_source(return_type);
            let ps = binding_types_to_source(parameters);
            SourceType::FunctionPointer {
                return_type: Box::new(r),
                parameters: ps,
                variadic: *variadic,
            }
        },
        BindingType::TypedefRef(name) => SourceType::TypedefRef(name.clone()),
        BindingType::RecordRef(name) => SourceType::RecordRef(name.clone()),
        BindingType::EnumRef(name) => SourceType::EnumRef(name.clone()),
        BindingType::Opaque(name) => SourceType::Opaque(name.clone()),
    }
}

fn binding_types_to_source(v: &Vec<BindingType>) -> (r: Vec<SourceType>)
    ensures
        b2s_all(v@, r@),
    decreases v,
{
    let mut ps: Vec<SourceType> = Vec::new();
    let mut i: usize = 0;
    while i < v.len()
        invariant
            i <= v@.len(),
            ps@.len() == i,
            forall|k: int| 0 <= k < i ==> b2s(#[trigger] v@[k], ps@[k]),
        decreases v@.len() - i,
    {
        assert(decreases_to!(v => v@[i as int]));
        ps.push(binding_type_to_source(&v[i]));
        i = i + 1;
    }
    proof {
        lemma_b2s_all(v@, ps@);
    }
    ps
}

fn source_types_to_binding(v: &Vec<SourceType>) -> (r: Vec<BindingType>)
    ensures
        s2b_all(v@, r@),
    decreases v,
{
    let mut ps: Vec<BindingType> = Vec::new();
    let mut i: usize = 0;
    while i < v.len()
        invariant
            i <= v@.len(),
            ps@.len() == i,
            forall|k: int| 0 <= k < i ==> s2b(#[trigger] v@[k], ps@[k]),
        decreases v@.len() - i,
    {
        assert(decreases_to!(v => v@[i as int]));
        ps.push(source_type_to_binding(&v[i]));
        i = i + 1;
    }
    proof {
        lemma_s2b_all(v@, ps@);
    }
    ps
}

/// The IR form of an intake type.
pub fn source_type_to_binding(ty: &SourceType) -> (r: BindingType)
    ensures
        s2b(*ty, r),
    decreases ty,
{
    match ty {
        SourceType::Void => BindingType::Void,
        SourceType::Bool => BindingType::Bool,
        SourceType::Char => BindingType::Char,
        SourceType::SChar => BindingType::SChar,
        SourceType::UChar => BindingType::UChar,
        SourceType::Short => BindingType::Short,
        SourceType::UShort => BindingType::UShort,
        SourceType::Int => BindingType::Int,
        SourceType::UInt => BindingType::UInt,
        SourceType::Long => BindingType::Long,
        SourceType::ULong => BindingType::ULong,
        SourceType::LongLong => BindingType::LongLong,
        SourceType::ULongLong => BindingType::ULongLong,
        SourceType::Float => BindingType::Float,
        SourceType::Double => BindingType::Double,
        SourceType::LongDouble => BindingType::LongDouble,
        SourceType::Pointer(inner) => BindingType::ptr(source_type_to_binding(inner)),
        SourceType::ConstPointer(inner) => BindingType::const_ptr(source_type_to_binding(inner)),
        SourceType::Array(elem, size) => BindingType::Array(
            Box::new(source_type_to_binding(elem)),
            *size,
        ),
        SourceType::FunctionPointer { return_type, parameters, variadic } => {
            let r = source_type_to_binding(return_type);
            let ps = source_types_to_binding(parameters);
            BindingType::FunctionPointer {
                return_type: Box::new(r),
                parameters: ps,
                variadic: *variadic,
            }
        },
        SourceType::TypedefRef(name) => BindingType::TypedefRef(name.clone()),
        SourceType::RecordRef(name) => BindingType::RecordRef(name.clone()),
        SourceType::EnumRef(name) => BindingType::EnumRef(name.clone()),
        SourceType::Opaque(name) => BindingType::Opaque(name.clone()),
        SourceType::Const(inner) => BindingType::qualified(
            source_type_to_binding(inner),
            TypeQualifiers { is_const: true, is_volatile: false, is_restrict: false, is_atomic: false },
        ),
        SourceType::Volatile(inner) => BindingType::qualified(
            source_type_to_binding(inner),
            TypeQualifiers { is_const: false, is_volatile: true, is_restrict: false, is_atomic: false },
        ),
    }
}

// ---------------------------------------------------------------------------
// Declarations
// ---------------------------------------------------------------------------

/// `d` is the intake form of the IR item `it` (which is not `Unsupported`).
pub open spec fn item_to_decl(it: BindingItem, d: SourceDeclaration) -> bool {
    match it {
        BindingItem::Function(f) => d matches SourceDeclaration::Function(g) && g.name == f.name
            && g.parameters@.len() == f.parameters@.len() && (forall|i: int|
            0 <= i < f.parameters@.len() ==> (#[trigger] g.parameters@[i]).name
                == f.parameters@[i].name && b2s(f.parameters@[i].ty, g.parameters@[i].ty)) && b2s(
            f.return_type,
            g.return_type,
        ) && g.variadic == f.variadic && g.source_offset == f.source_offset,
        BindingItem::Record(r) => d matches SourceDeclaration::Record(g) && g.name == r.name
            && g.is_union == (r.kind == RecordKind::Union) && g.source_offset == r.source_offset
            && match (r.fields, g.fields) {
            (None, None) => true,
            (Some(a), Some(b)) => a@.len() == b@.len() && forall|i: int|
                0 <= i < a@.len() ==> (#[trigger] b@[i]).name == a@[i].name && b2s(a@[i].ty, b@[i].ty)
                    && b@[i].bit_width == a@[i].bit_width,
            _ => false,
        },
        BindingItem::Enum(e) => d matches SourceDeclaration::Enum(g) && g.name == e.name
            && g.source_offset == e.source_offset && g.variants@.len() == e.variants@.len()
            && forall|i: int|
            0 <= i < e.variants@.len() ==> (#[trigger] g.variants@[i]).name == e.variants@[i].name
                && g.variants@[i].value == e.variants@[i].value,
        BindingItem::TypeAlias(a) => d matches SourceDeclaration::TypeAlias(g) && g.name == a.name
            && b2s(a.target, g.target) && g.source_offset == a.source_offset,
        BindingItem::Variable(v) => d matches SourceDeclaration::Variable(g) && g.name == v.name
            && b2s(v.ty, g.ty) && g.source_offset == v.source_offset,
        BindingItem::Unsupported(_) => false,
    }
}

/// `it` is the IR form of the intake declaration `d`.
pub open spec fn decl_to_item(d: SourceDeclaration, it: BindingItem) -> bool {
    match d {
        SourceDeclaration::Function(f) => it matches BindingItem::Function(g) && g.name == f.name
            && g.calling_convention == CallingConvention::C && g.parameters@.len()
            == f.parameters@.len() && (forall|i: int|
            0 <= i < f.parameters@.len() ==> (#[trigger] g.parameters@[i]).name
                == f.parameters@[i].name && s2b(f.parameters@[i].ty, g.parameters@[i].ty)) && s2b(
            f.return_type,
            g.return_type,
        ) && g.variadic == f.variadic && g.source_offset == f.source_offset,
        SourceDeclaration::Record(r) => it matches BindingItem::Record(g) && g.name == r.name
            && g.kind == (if r.is_union {
            RecordKind::Union
        } else {
            RecordKind::Struct
        }) && g.representation.is_none() && g.abi_confidence.is_none() && g.source_offset
            == r.source_offset && match (r.fields, g.fields) {
            (None, None) => true,
            (Some(a), Some(b)) => a@.len() == b@.len() && forall|i: int|
                0 <= i < a@.len() ==> (#[trigger] b@[i]).name == a@[i].name && s2b(a@[i].ty, b@[i].ty)
                    && b@[i].bit_width == a@[i].bit_width && b@[i].layout.is_none(),
            _ => false,
        },
        SourceDeclaration::Enum(e) => it matches BindingItem::Enum(g) && g.name == e.name
            && g.representation.is_none() && g.abi_confidence.is_none() && g.source_offset
            == e.source_offset && g.variants@.len() == e.variants@.len() && forall|i: int|
            0 <= i < e.variants@.len() ==> (#[trigger] g.variants@[i]).name == e.variants@[i].name
                && g.variants@[i].value == e.variants@[i].value,
        SourceDeclaration::TypeAlias(a) => it matches BindingItem::TypeAlias(g) && g.name == a.name
            && s2b(a.target, g.target) && g.canonical_resolution.is_none()
            && g.abi_confidence.is_none() && g.source_offset == a.source_offset,
        SourceDeclaration::Variable(v) => it matches BindingItem::Variable(g) && g.name == v.name
            && s2b(v.ty, g.ty) && g.source_offset == v.source_offset,
    }
}

pub open spec fn is_supported(it: BindingItem) -> bool {
    !(it is Unsupported)
}

pub open spec fn supported_pred() -> spec_fn(BindingItem) -> bool {
    |it: BindingItem| is_supported(it)
}

fn param_to_source(p: &ParameterBinding) -> (r: SourceParameter)
    ensures
        r.name == p.name,
        b2s(p.ty, r.ty),
{
    SourceParameter { name: clone_opt(&p.name), ty: binding_type_to_source(&p.ty) }
}

fn item_to_source(item: &BindingItem) -> (r: Option<SourceDeclaration>)
    ensures
        match r {
            Some(d) => is_supported(*item) && item_to_decl(*item, d),
            None => !is_supported(*item),
        },
{
    match item {
        BindingItem::Function(f) => {
            let mut parameters: Vec<SourceParameter> = Vec::new();
            let mut i: usize = 0;
            while i < f.parameters.len()
                invariant
                    i <= f.parameters@.len(),
                    parameters@.len() == i,
                    forall|k: int|
                        0 <= k < i ==> (#[trigger] parameters@[k]).name == f.parameters@[k].name
                            && b2s(f.parameters@[k].ty, parameters@[k].ty),
                decreases f.parameters@.len() - i,
            {
                parameters.push(param_to_source(&f.parameters[i]));
                i = i + 1;
            }
            Some(
                SourceDeclaration::Function(
                    SourceFunction {
                        name: f.name.clone(),
                        parameters,
                        return_type: binding_type_to_source(&f.return_type),
                        variadic: f.variadic,
                        source_offset: f.source_offset,
                    },
                ),
            )
        },
        BindingItem::Record(r) => {
            let fields = match &r.fields {
                Some(fs) => {
                    let mut out: Vec<SourceField> = Vec::new();
                    let mut i: usize = 0;
                    while i < fs.len()
                        invariant
                            i <= fs@.len(),
                            out@.len() == i,
                            forall|k: int|
                                0 <= k < i ==> (#[trigger] out@[k]).name == fs@[k].name && b2s(
                                    fs@[k].ty,
                                    out@[k].ty,
                                ) && out@[k].bit_width == fs@[k].bit_width,
                        decreases fs@.len() - i,
                    {
                        out.push(
                            SourceField {
                                name: clone_opt(&fs[i].name),
                                ty: binding_type_to_source(&fs[i].ty),
                                bit_width: fs[i].bit_width,
                            },
                        );
                        i = i + 1;
                    }
                    Some(out)
                },
                None => None,
            };
            Some(
                SourceDeclaration::Record(
                    SourceRecord {
                        name: clone_opt(&r.name),
                        is_union: matches!(r.kind, RecordKind::Union),
                        fields,
                        source_offset: r.source_offset,
                    },
                ),
            )
        },
        BindingItem::Enum(e) => {
            let mut variants: Vec<SourceEnumVariant> = Vec::new();
            let mut i: usize = 0;
            while i < e.variants.len()
                invariant
                    i <= e.variants@.len(),
                    variants@.len() == i,
                    forall|k: int|
                        0 <= k < i ==> (#[trigger] variants@[k]).name == e.variants@[k].name
                            && variants@[k].value == e.variants@[k].value,
                decreases e.variants@.len() - i,
            {
                variants.push(
                    SourceEnumVariant { name: e.variants[i].name.clone(), value: e.variants[i].value },
                );
                i = i + 1;
            }
            Some(
                SourceDeclaration::Enum(
                    SourceEnum { name: clone_opt(&e.name), variants, source_offset: e.source_offset },
                ),
            )
        },
        BindingItem::TypeAlias(a) => Some(
            SourceDeclaration::TypeAlias(
                SourceTypeAlias {
                    name: a.name.clone(),
                    target: binding_type_to_source(&a.target),
                    source_offset: a.source_offset,
                },
            ),
        ),
        BindingItem::Variable(v) => Some(
            SourceDeclaration::Variable(
                SourceVariable {
                    name: v.name.clone(),
                    ty: binding_type_to_source(&v.ty),
                    source_offset: v.source_offset,
                },
            ),
        ),
        BindingItem::Unsupported(_) => None,
    }
}

fn decl_to_binding(decl: &SourceDeclaration) -> (r: BindingItem)
    ensures
        decl_to_item(*decl, r),
{
    match decl {
        SourceDeclaration::Function(f) => {
            let mut parameters: Vec<ParameterBinding> = Vec::new();
            let mut i: usize = 0;
            while i < f.parameters.len()
                invariant
                    i <= f.parameters@.len(),
                    parameters@.len() == i,
                    forall|k: int|
                        0 <= k < i ==> (#[trigger] parameters@[k]).name == f.parameters@[k].name
                            && s2b(f.parameters@[k].ty, parameters@[k].ty),
                decreases f.parameters@.len() - i,
            {
                parameters.push(
                    ParameterBinding {
                        name: clone_opt(&f.parameters[i].name),
                        ty: source_type_to_binding(&f.parameters[i].ty),
                    },
                );
                i = i + 1;
            }
            BindingItem::Function(
                FunctionBinding {
                    name: f.name.clone(),
                    calling_convention: CallingConvention::C,
                    parameters,
                    return_type: source_type_to_binding(&f.return_type),
                    variadic: f.variadic,
                    source_offset: f.source_offset,
                },
            )
        },
        SourceDeclaration::Record(r) => {
            let fields = match &r.fields {
                Some(fs) => {
                    let mut out: Vec<FieldBinding> = Vec::new();
                    let mut i: usize = 0;
                    while i < fs.len()
                        invariant
                            i <= fs@.len(),
                            out@.len() == i,
                            forall|k: int|
                                0 <= k < i ==> (#[trigger] out@[k]).name == fs@[k].name && s2b(
                                    fs@[k].ty,
                                    out@[k].ty,
                                ) && out@[k].bit_width == fs@[k].bit_width
                                    && out@[k].layout.is_none(),
                        decreases fs@.len() - i,
                    {
                        out.push(
                            FieldBinding {
                                name: clone_opt(&fs[i].name),
                                ty: source_type_to_binding(&fs[i].ty),
                                bit_width: fs[i].bit_width,
                                layout: None,
                            },
                        );
                        i = i + 1;
                    }
                    Some(out)
                },
                None => None,
            };
            BindingItem::Record(
                RecordBinding {
                    kind: if r.is_union {
                        RecordKind::Union
                    } else {
                        RecordKind::Struct
                    },
                    name: clone_opt(&r.name),
                    fields,
                    representation: None,
                    abi_confidence: None,
                    source_offset: r.source_offset,
                },
            )
        },
        SourceDeclaration::Enum(e) => {
            let mut variants: Vec<EnumVariant> = Vec::new();
            let mut i: usize = 0;
            while i < e.variants.len()
                invariant
                    i <= e.variants@.len(),
                    variants@.len() == i,
                    forall|k: int|
                        0 <= k < i ==> (#[trigger] variants@[k]).name == e.variants@[k].name
                            && variants@[k].value == e.variants@[k].value,
                decreases e.variants@.len() - i,
            {
                variants.push(
                    EnumVariant { name: e.variants[i].name.clone(), value: e.variants[i].value },
                );
                i = i + 1;
            }
            BindingItem::Enum(
                EnumBinding {
                    name: clone_opt(&e.name),
                    variants,
                    representation: None,
                    abi_confidence: None,
                    source_offset: e.source_offset,
                },
            )
        },
        SourceDeclaration::TypeAlias(a) => BindingItem::TypeAlias(
            TypeAliasBinding {
                name: a.name.clone(),
                target: source_type_to_binding(&a.target),
                canonical_resolution: None,
                abi_confidence: None,
                source_offset: a.source_offset,
            },
        ),
        SourceDeclaration::Variable(v) => BindingItem::Variable(
            VariableBinding {
                name: v.name.clone(),
                ty: source_type_to_binding(&v.ty),
                source_offset: v.source_offset,
            },
        ),
    }
}

// ---------------------------------------------------------------------------
// Packages
// ---------------------------------------------------------------------------

/// Intake kind of an IR library kind.
pub open spec fn library_kind_to_source(k: LinkLibraryKind) -> SourceLinkKind {
    match k {
        LinkLibraryKind::Default => SourceLinkKind::Library,
        LinkLibraryKind::Static => SourceLinkKind::StaticLibrary,
        LinkLibraryKind::Dynamic => SourceLinkKind::DynamicLibrary,
    }
}

/// IR library kind of a non-framework intake link kind.
pub open spec fn source_kind_to_library(k: SourceLinkKind) -> LinkLibraryKind {
    match k {
        SourceLinkKind::Library => LinkLibraryKind::Default,
        SourceLinkKind::StaticLibrary => LinkLibraryKind::Static,
        SourceLinkKind::DynamicLibrary => LinkLibraryKind::Dynamic,
        SourceLinkKind::Framework => LinkLibraryKind::Default,
    }
}

pub open spec fn not_framework_pred() -> spec_fn(SourceLinkRequirement) -> bool {
    |r: SourceLinkRequirement| !(r.kind == SourceLinkKind::Framework)
}

/// `r` is the intake contract of the extracted package `pkg`: its declarations (unsupported
/// items are skipped), macros, declared libraries, inputs and target identity.
pub open spec fn is_intake_of(r: SourcePackage, pkg: BindingPackage) -> bool {
    &&& ({
        let kept = pkg.items@.filter(supported_pred());
        &&& r.declarations@.len() == kept.len()
        &&& forall|i: int|
            0 <= i < kept.len() ==> item_to_decl(#[trigger] kept[i], r.declarations@[i])
    })
    &&& r.macros@.len() == pkg.macros@.len()
    &&& forall|i: int|
        0 <= i < pkg.macros@.len() ==> (#[trigger] r.macros@[i]).name == pkg.macros@[i].name
            && r.macros@[i].body == pkg.macros@[i].body && r.macros@[i].function_like
            == pkg.macros@[i].function_like
    &&& r.link_requirements@.len() == pkg.link.libraries@.len()
    &&& forall|i: int|
        0 <= i < pkg.link.libraries@.len() ==> (#[trigger] r.link_requirements@[i]).name
            == pkg.link.libraries@[i].name && r.link_requirements@[i].kind
            == library_kind_to_source(pkg.link.libraries@[i].kind)
    &&& r.source_path == pkg.source_path
    &&& r.include_dirs@ == pkg.inputs.include_dirs@
    &&& r.entry_headers@ == pkg.inputs.entry_headers@
    &&& r.defines@.len() == pkg.inputs.defines@.len()
    &&& forall|i: int|
        0 <= i < pkg.inputs.defines@.len() ==> (#[trigger] r.defines@[i]).0
            == pkg.inputs.defines@[i].name && r.defines@[i].1 == pkg.inputs.defines@[i].value
    &&& r.target_triple == pkg.target.target_triple
    &&& r.compiler_command == pkg.target.compiler_command
    &&& r.compiler_version == pkg.target.compiler_version
}

/// The intake contract for an extracted package.
pub fn from_binding_package(pkg: &BindingPackage) -> (r: SourcePackage)
    ensures
        is_intake_of(r, *pkg),
{
    let mut declarations: Vec<SourceDeclaration> = Vec::new();
    let mut i: usize = 0;
    while i < pkg.items.len()
        invariant
            i <= pkg.items@.len(),
            declarations@.len() == pkg.items@.subrange(0, i as int).filter(supported_pred()).len(),
            forall|k: int|
                0 <= k < declarations@.len() ==> item_to_decl(
                    #[trigger] pkg.items@.subrange(0, i as int).filter(supported_pred())[k],
                    declarations@[k],
                ),
        decreases pkg.items@.len() - i,
    {
        let ghost sub = pkg.items@.subrange(0, i + 1);
        assert(sub.drop_last() =~= pkg.items@.subrange(0, i as int));
        reveal_with_fuel(Seq::filter, 1);
        match item_to_source(&pkg.items[i]) {
            Some(d) => {
                declarations.push(d);
            },
            None => {},
        }
        i = i + 1;
    }
    assert(pkg.items@.subrange(0, i as int) =~= pkg.items@);
    let mut macros: Vec<SourceMacro> = Vec::new();
    let mut i: usize = 0;
    while i < pkg.macros.len()
        invariant
            i <= pkg.macros@.len(),
            macros@.len() == i,
            forall|k: int|
                0 <= k < i ==> (#[trigger] macros@[k]).name == pkg.macros@[k].name
                    && macros@[k].body == pkg.macros@[k].body && macros@[k].function_like
                    == pkg.macros@[k].function_like,
        decreases pkg.macros@.len() - i,
    {
        let m = &pkg.macros[i];
        macros.push(
            SourceMacro { name: m.name.clone(), body: m.body.clone(), function_like: m.function_like },
        );
        i = i + 1;
    }
    let mut link_requirements: Vec<SourceLinkRequirement> = Vec::new();
    let mut i: usize = 0;
    while i < pkg.link.libraries.len()
        invariant
            i <= pkg.link.libraries@.len(),
            link_requirements@.len() == i,
            forall|k: int|
                0 <= k < i ==> (#[trigger] link_requirements@[k]).name == pkg.link.libraries@[k].name
                    && link_requirements@[k].kind == library_kind_to_source(
                    pkg.link.libraries@[k].kind,
                ),
        decreases pkg.link.libraries@.len() - i,
    {
        let lib = &pkg.link.libraries[i];
        let kind = match lib.kind {
            LinkLibraryKind::Default => SourceLinkKind::Library,
            LinkLibraryKind::Static => SourceLinkKind::StaticLibrary,
            LinkLibraryKind::Dynamic => SourceLinkKind::DynamicLibrary,
        };
        link_requirements.push(SourceLinkRequirement { name: lib.name.clone(), kind });
        i = i + 1;
    }
    let mut defines: Vec<(String, Option<String>)> = Vec::new();
    let mut i: usize = 0;
    while i < pkg.inputs.defines.len()
        invariant
            i <= pkg.inputs.defines@.len(),
            defines@.len() == i,
            forall|k: int|
                0 <= k < i ==> (#[trigger] defines@[k]).0 == pkg.inputs.defines@[k].name
                    && defines@[k].1 == pkg.inputs.defines@[k].value,
        decreases pkg.inputs.defines@.len() - i,
    {
        let d = &pkg.inputs.defines[i];
        defines.push((d.name.clone(), clone_opt(&d.value)));
        i = i + 1;
    }
    SourcePackage {
        source_path: clone_opt(&pkg.source_path),
        declarations,
        macros,
        link_requirements,
        include_dirs: clone_strings(&pkg.inputs.include_dirs),
        entry_headers: clone_strings(&pkg.inputs.entry_headers),
        defines,
        target_triple: clone_opt(&pkg.target.target_triple),
        compiler_command: clone_opt(&pkg.target.compiler_command),
        compiler_version: clone_opt(&pkg.target.compiler_version),
    }
}

/// `r` is the IR package for the intake contract `src`: one item per declaration, object- or
/// function-like macros with no classification yet, the non-framework link requirements as
/// declared libraries, and the inputs and target identity.
pub open spec fn is_ir_of(r: BindingPackage, src: SourcePackage) -> bool {
    &&& r.items@.len() == src.declarations@.len()
    &&& forall|i: int|
        0 <= i < src.declarations@.len() ==> decl_to_item(
            #[trigger] src.declarations@[i],
            r.items@[i],
        )
    &&& r.macros@.len() == src.macros@.len()
    &&& forall|i: int|
        0 <= i < src.macros@.len() ==> {
            let m = #[trigger] r.macros@[i];
            let s = src.macros@[i];
            &&& m.name == s.name && m.body == s.body && m.function_like == s.function_like
            &&& m.form == (if s.function_like {
                MacroForm::FunctionLike
            } else {
                MacroForm::ObjectLike
            })
            &&& m.kind == MacroKind::Other && m.category == MacroCategory::BindableConstant
            &&& m.value.is_none()
        }
    &&& ({
        let reqs = src.link_requirements@.filter(not_framework_pred());
        &&& r.link.libraries@.len() == reqs.len()
        &&& forall|i: int|
            0 <= i < reqs.len() ==> (#[trigger] r.link.libraries@[i]).name == reqs[i].name
                && r.link.libraries@[i].kind == source_kind_to_library(reqs[i].kind)
                && r.link.libraries@[i].source == LinkRequirementSource::Declared
    })
    &&& link_surface_empty_but_libraries(r.link)
    &&& r.inputs.entry_headers@ == src.entry_headers@
    &&& r.inputs.include_dirs@ == src.include_dirs@
    &&& r.inputs.defines@.len() == src.defines@.len()
    &&& forall|i: int|
        0 <= i < src.defines@.len() ==> (#[trigger] r.inputs.defines@[i]).name == src.defines@[i].0
            && r.inputs.defines@[i].value == src.defines@[i].1
    &&& r.target.target_triple == src.target_triple
    &&& r.target.compiler_command == src.compiler_command
    &&& r.target.compiler_version == src.compiler_version
    &&& r.target.flavor.is_none()
    &&& r.source_path == src.source_path
    &&& r.schema_version == SCHEMA_VERSION
    &&& r.linc_version@ == LINC_VERSION@
    &&& r.layouts@.len() == 0
    &&& r.provenance@.len() == 0
    &&& r.macro_provenance@.len() == 0
    &&& r.effective_macro_environment@.len() == 0
    &&& r.diagnostics@.len() == 0
}

/// The IR package for an intake contract.
pub fn to_binding_package(src: &SourcePackage) -> (r: BindingPackage)
    ensures
        is_ir_of(r, *src),
{
    let mut items: Vec<BindingItem> = Vec::new();
    let mut i: usize = 0;
    while i < src.declarations.len()
        invariant
            i <= src.declarations@.len(),
            items@.len() == i,
            forall|k: int| 0 <= k < i ==> decl_to_item(#[trigger] src.declarations@[k], items@[k]),
        decreases src.declarations@.len() - i,
    {
        items.push(decl_to_binding(&src.declarations[i]));
        i = i + 1;
    }
    let mut macros: Vec<MacroBinding> = Vec::new();
    let mut i: usize = 0;
    while i < src.macros.len()
        invariant
            i <= src.macros@.len(),
            macros@.len() == i,
            forall|k: int|
                0 <= k < i ==> {
                    let m = #[trigger] macros@[k];
                    let s = src.macros@[k];
                    &&& m.name == s.name && m.body == s.body && m.function_like == s.function_like
                    &&& m.form == (if s.function_like {
                        MacroForm::FunctionLike
                    } else {
                        MacroForm::ObjectLike
                    })
                    &&& m.kind == MacroKind::Other && m.category == MacroCategory::BindableConstant
                    &&& m.value.is_none()
                },
        decreases src.macros@.len() - i,
    {
        let m = &src.macros[i];
        macros.push(
            MacroBinding {
                name: m.name.clone(),
                body: m.body.clone(),
                function_like: m.function_like,
                form: if m.function_like {
                    MacroForm::FunctionLike
                } else {
                    MacroForm::ObjectLike
                },
                kind: MacroKind::Other,
                category: MacroCategory::BindableConstant,
                value: None,
            },
        );
        i = i + 1;
    }
    let mut libraries: Vec<LinkLibrary> = Vec::new();
    let mut i: usize = 0;
    while i < src.link_requirements.len()
        invariant
            i <= src.link_requirements@.len(),
            libraries@.len() == src.link_requirements@.subrange(0, i as int).filter(
                not_framework_pred(),
            ).len(),
            forall|k: int|
                0 <= k < libraries@.len() ==> {
                    let q = src.link_requirements@.subrange(0, i as int).filter(
                        not_framework_pred(),
                    )[k];
                    &&& (#[trigger] libraries@[k]).name == q.name
                    &&& libraries@[k].kind == source_kind_to_library(q.kind)
                    &&& libraries@[k].source == LinkRequirementSource::Declared
                },
        decreases src.link_requirements@.len() - i,
    {
        let ghost sub = src.link_requirements@.subrange(0, i + 1);
        assert(sub.drop_last() =~= src.link_requirements@.subrange(0, i as int));
        reveal_with_fuel(Seq::filter, 1);
        let req = &src.link_requirements[i];
        if !matches!(req.kind, SourceLinkKind::Framework) {
            let kind = match req.kind {
                SourceLinkKind::Library => LinkLibraryKind::Default,
                SourceLinkKind::StaticLibrary => LinkLibraryKind::Static,
                SourceLinkKind::DynamicLibrary => LinkLibraryKind::Dynamic,
                SourceLinkKind::Framework => LinkLibraryKind::Default,
            };
            libraries.push(
                LinkLibrary { name: req.name.clone(), kind, source: LinkRequirementSource::Declared },
            );
        }
        i = i + 1;
    }
    assert(src.link_requirements@.subrange(0, i as int) =~= src.link_requirements@);
    let mut defines: Vec<BindingDefine> = Vec::new();
    let mut i: usize = 0;
    while i < src.defines.len()
        invariant
            i <= src.defines@.len(),
            defines@.len() == i,
            forall|k: int|
                0 <= k < i ==> (#[trigger] defines@[k]).name == src.defines@[k].0
                    && defines@[k].value == src.defines@[k].1,
        decreases src.defines@.len() - i,
    {
        defines.push(
            BindingDefine { name: src.defines[i].0.clone(), value: clone_opt(&src.defines[i].1) },
        );
        i = i + 1;
    }
    let mut link = BindingLinkSurface::default();
    link.libraries = libraries;
    let mut pkg = BindingPackage::new();
    pkg.source_path = clone_opt(&src.source_path);
    pkg.items = items;
    pkg.macros = macros;
    pkg.link = link;
    pkg.inputs = BindingInputs {
        entry_headers: clone_strings(&src.entry_headers),
        include_dirs: clone_strings(&src.include_dirs),
        defines,
    };
    pkg.target = BindingTarget {
        target_triple: clone_opt(&src.target_triple),
        compiler_command: clone_opt(&src.compiler_command),
        compiler_version: clone_opt(&src.compiler_version),
        flavor: None,
    };
    pkg
}

// ---------------------------------------------------------------------------
// Round trips
// ---------------------------------------------------------------------------

/// Taking an intake type to the IR and back gives the same intake type.
pub proof fn lemma_source_type_round_trip(s: SourceType, b: BindingType, back: SourceType)
    requires
        s2b(s, b),
        b2s(b, back),
    ensures
        same_source(s, back),
    decreases s,
{
    match (s, b, back) {
        (SourceType::Pointer(x), BindingType::Pointer { pointee, .. }, SourceType::Pointer(y)) => {
            lemma_source_type_round_trip(*x, *pointee, *y);
        },
        (
            SourceType::ConstPointer(x),
            BindingType::Pointer { pointee, .. },
            SourceType::ConstPointer(y),
        ) => {
            lemma_source_type_round_trip(*x, *pointee, *y);
        },
        (SourceType::Array(x, _), BindingType::Array(e, _), SourceType::Array(y, _)) => {
            lemma_source_type_round_trip(*x, *e, *y);
        },
        (SourceType::Const(x), BindingType::Qualified { ty, .. }, SourceType::Const(y)) => {
            lemma_source_type_round_trip(*x, *ty, *y);
        },
        (SourceType::Volatile(x), BindingType::Qualified { ty, .. }, SourceType::Volatile(y)) => {
            lemma_source_type_round_trip(*x, *ty, *y);
        },
        (
            SourceType::FunctionPointer { return_type, parameters, .. },
            BindingType::FunctionPointer { return_type: br, parameters: bps, .. },
            SourceType::FunctionPointer { return_type: r, parameters: ps, .. },
        ) => {
            lemma_source_type_round_trip(*return_type, *br, *r);
            lemma_source_types_round_trip(parameters@, bps@, ps@);
        },
        _ => {},
    }
}

/// Element-wise form of `lemma_source_type_round_trip`.
pub proof fn lemma_source_types_round_trip(
    a: Seq<SourceType>,
    b: Seq<BindingType>,
    back: Seq<SourceType>,
)
    requires
        s2b_all(a, b),
        b2s_all(b, back),
    ensures
        same_sources(a, back),
    decreases a,
{
    if a.len() > 0 {
        lemma_source_type_round_trip(a[0], b[0], back[0]);
        lemma_source_types_round_trip(
            a.subrange(1, a.len() as int),
            b.subrange(1, b.len() as int),
            back.subrange(1, back.len() as int),
        );
    }
}

/// Taking an extracted package to the intake contract and back keeps every supported
/// item in order with its kind and name, the source path, the macros' names and bodies,
/// the declared libraries' names and kinds, the inputs and the target identity.
pub proof fn lemma_package_round_trip(pkg: BindingPackage, src: SourcePackage, back: BindingPackage)
    requires
        is_intake_of(src, pkg),
        is_ir_of(back, src),
    ensures
        ({
            let kept = pkg.items@.filter(supported_pred());
            &&& back.items@.len() == kept.len()
            &&& forall|i: int|
                0 <= i < kept.len() ==> item_kind(#[trigger] back.items@[i]) == item_kind(kept[i])
                    && item_name(back.items@[i]) == item_name(kept[i])
        }),
        back.source_path == pkg.source_path,
        back.macros@.len() == pkg.macros@.len(),
        forall|i: int|
            0 <= i < pkg.macros@.len() ==> (#[trigger] back.macros@[i]).name == pkg.macros@[i].name
                && back.macros@[i].body == pkg.macros@[i].body && back.macros@[i].function_like
                == pkg.macros@[i].function_like,
        back.link.libraries@.len() == pkg.link.libraries@.len(),
        forall|i: int|
            0 <= i < pkg.link.libraries@.len() ==> (#[trigger] back.link.libraries@[i]).name
                == pkg.link.libraries@[i].name && back.link.libraries@[i].kind
                == pkg.link.libraries@[i].kind,
        back.inputs.include_dirs@ == pkg.inputs.include_dirs@,
        back.inputs.entry_headers@ == pkg.inputs.entry_headers@,
        back.target.target_triple == pkg.target.target_triple,
        back.target.compiler_command == pkg.target.compiler_command,
        back.target.compiler_version == pkg.target.compiler_version,
{
    let kept = pkg.items@.filter(supported_pred());
    assert forall|i: int| 0 <= i < kept.len() implies item_kind(#[trigger] back.items@[i])
        == item_kind(kept[i]) && item_name(back.items@[i]) == item_name(kept[i]) by {
        assert(item_to_decl(kept[i], src.declarations@[i]));
        assert(decl_to_item(src.declarations@[i], back.items@[i]));
    }
    let reqs = src.link_requirements@;
    assert forall|i: int| 0 <= i < reqs.len() implies #[trigger] not_framework_pred()(reqs[i]) by {
        assert(reqs[i].kind == library_kind_to_source(pkg.link.libraries@[i].kind));
    }
    lemma_filter_keeps_all(reqs, not_framework_pred());
    assert forall|i: int| 0 <= i < pkg.link.libraries@.len() implies (
    #[trigger] back.link.libraries@[i]).name == pkg.link.libraries@[i].name
        && back.link.libraries@[i].kind == pkg.link.libraries@[i].kind by {
        assert(reqs[i].name == pkg.link.libraries@[i].name);
        assert(reqs[i].kind == library_kind_to_source(pkg.link.libraries@[i].kind));
    }
}

} // verus!
