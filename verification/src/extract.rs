//! Declaration extraction: the IR items and diagnostics of a parsed C translation
//! unit.
//!
//! Each top-level declaration yields its functions, records, enums, typedefs and
//! `extern` variables; constructs that have no binding form (static functions,
//! `_Complex`, K&R declarations, blocks, ignored attributes and specifiers) are
//! reported as diagnostics.
use vstd::prelude::*;

use crate::c_ast::{
    ArraySize, BinaryOperator, Declaration, DeclarationSpecifier, Declarator, DeclaratorKind,
    DerivedDeclarator, EnumType, Enumerator, Expression, Extension, ExternalDeclaration,
    FunctionDefinition, FunctionSpecifier, IntegerBase, ParameterDeclaration, SpecifierQualifier,
    StorageClass, StructDeclarator, StructField, StructType, TranslationUnit, TypeQualifier,
    TypeSpecifier, UnaryOperator,
};
use crate::diagnostics::{Diagnostic, DiagnosticKind, Severity};
use crate::ir::types::{
    lemma_same_type_model, lemma_type_models_index, no_qualifiers, type_model, type_models, TypeModel,
};
use crate::ir::{
    has_new_metadata, AbiConfidence, BindingItem, BindingPackage, BindingType, CallingConvention, EnumBinding, EnumRepresentation,
    EnumVariant, FieldBinding, FieldLayout, FunctionBinding, ParameterBinding, RecordBinding,
    RecordKind, RecordRepresentation, TypeAliasBinding, TypeQualifiers, VariableBinding,
};
use crate::text::{join2, join3, strs, opt_str, chars_eq, chars_of, lower_ascii, lower_ascii_chars, parse_i128_range, parse_i128_s, slice_chars, trim_range, trim_s};

verus! {

// ---------------------------------------------------------------------------
// Constant expressions
// ---------------------------------------------------------------------------

pub open spec fn radix_of(base: IntegerBase) -> u32 {
    match base {
        IntegerBase::Decimal => 10,
        IntegerBase::Octal => 8,
        IntegerBase::Hexadecimal => 16,
        IntegerBase::Binary => 2,
    }
}

pub open spec fn truth(b: bool) -> i128 {
    if b {
        1
    } else {
        0
    }
}

/// The value of a binary operation on two values, with 128-bit wrapping arithmetic;
/// none for other operators, a zero divisor, or a quotient or remainder that does not
/// fit.
pub open spec fn binary_value(op: BinaryOperator, l: i128, r: i128) -> Option<i128> {
    match op {
        BinaryOperator::Plus => Some(l.wrapping_add(r)),
        BinaryOperator::Minus => Some(l.wrapping_sub(r)),
        BinaryOperator::Multiply => Some(l.wrapping_mul(r)),
        BinaryOperator::Divide => l.checked_div(r),
        BinaryOperator::Modulo => l.checked_rem(r),
        BinaryOperator::ShiftLeft => Some(l.wrapping_shl(r as u32)),
        BinaryOperator::ShiftRight => Some(l.wrapping_shr(r as u32)),
        BinaryOperator::BitwiseAnd => Some(l & r),
        BinaryOperator::BitwiseOr => Some(l | r),
        BinaryOperator::BitwiseXor => Some(l ^ r),
        BinaryOperator::Equals => Some(truth(l == r)),
        BinaryOperator::NotEquals => Some(truth(l != r)),
        BinaryOperator::Less => Some(truth(l < r)),
        BinaryOperator::Greater => Some(truth(l > r)),
        BinaryOperator::LessOrEqual => Some(truth(l <= r)),
        BinaryOperator::GreaterOrEqual => Some(truth(l >= r)),
        BinaryOperator::LogicalAnd => Some(truth(l != 0 && r != 0)),
        BinaryOperator::LogicalOr => Some(truth(l != 0 || r != 0)),
        BinaryOperator::Other => None,
    }
}

/// The value of an integer constant expression, if it has one.
pub open spec fn const_value(e: Expression) -> Option<i128>
    decreases e,
{
    match e {
        Expression::Integer { base, number } => parse_i128_s(number@, radix_of(base)),
        Expression::Unary(op, x) => match const_value(*x) {
            None => None,
            Some(v) => match op {
                UnaryOperator::Minus => Some(0i128.wrapping_sub(v)),
                UnaryOperator::Plus => Some(v),
                UnaryOperator::Complement => Some((-1 - v) as i128),
                UnaryOperator::Negate => Some(truth(v == 0)),
                UnaryOperator::Other => None,
            },
        },
        Expression::Binary(op, a, b) => match (const_value(*a), const_value(*b)) {
            (Some(l), Some(r)) => binary_value(op, l, r),
            _ => None,
        },
        Expression::Conditional(c, t, f) => match const_value(*c) {
            None => None,
            Some(v) => if v != 0 {
                const_value(*t)
            } else {
                const_value(*f)
            },
        },
        Expression::Cast(x) => const_value(*x),
        Expression::Comma(last) => match last {
            Some(x) => const_value(*x),
            None => None,
        },
        Expression::Other => None,
    }
}

fn binary_exec(op: BinaryOperator, l: i128, r: i128) -> (v: Option<i128>)
    ensures
        v == binary_value(op, l, r),
{
    match op {
        BinaryOperator::Plus => Some(l.wrapping_add(r)),
        BinaryOperator::Minus => Some(l.wrapping_sub(r)),
        BinaryOperator::Multiply => Some(l.wrapping_mul(r)),
        BinaryOperator::Divide => l.checked_div(r),
        BinaryOperator::Modulo => l.checked_rem(r),
        BinaryOperator::ShiftLeft => Some(l.wrapping_shl(r as u32)),
        BinaryOperator::ShiftRight => Some(l.wrapping_shr(r as u32)),
        BinaryOperator::BitwiseAnd => Some(l & r),
        BinaryOperator::BitwiseOr => Some(l | r),
        BinaryOperator::BitwiseXor => Some(l ^ r),
        BinaryOperator::Equals => Some(if l == r { 1 } else { 0 }),
        BinaryOperator::NotEquals => Some(if l != r { 1 } else { 0 }),
        BinaryOperator::Less => Some(if l < r { 1 } else { 0 }),
        BinaryOperator::Greater => Some(if l > r { 1 } else { 0 }),
        BinaryOperator::LessOrEqual => Some(if l <= r { 1 } else { 0 }),
        BinaryOperator::GreaterOrEqual => Some(if l >= r { 1 } else { 0 }),
        BinaryOperator::LogicalAnd => Some(if l != 0 && r != 0 { 1 } else { 0 }),
        BinaryOperator::LogicalOr => Some(if l != 0 || r != 0 { 1 } else { 0 }),
        BinaryOperator::Other => None,
    }
}

/// Best-effort evaluation of the integer constant expressions that give enum values,
/// array sizes and bit-field widths. Arithmetic wraps at 128 bits; a division or
/// remainder by zero, or one whose result does not fit, has no value.
pub fn eval_const_expr(e: &Expression) -> (r: Option<i128>)
    ensures
        r == const_value(*e),
    decreases e,
{
    match e {
        Expression::Integer { base, number } => {
            let radix: u32 = match base {
                IntegerBase::Decimal => 10,
                IntegerBase::Octal => 8,
                IntegerBase::Hexadecimal => 16,
                IntegerBase::Binary => 2,
            };
            let v = chars_of(number.as_str());
            let r = parse_i128_range(&v, 0, v.len(), radix);
            assert(v@.subrange(0, v@.len() as int) =~= number@);
            r
        },
        Expression::Unary(op, x) => match eval_const_expr(x) {
            None => None,
            Some(v) => match op {
                UnaryOperator::Minus => Some(0i128.wrapping_sub(v)),
                UnaryOperator::Plus => Some(v),
                UnaryOperator::Complement => Some(-1 - v),
                UnaryOperator::Negate => Some(if v == 0 { 1 } else { 0 }),
                UnaryOperator::Other => None,
            },
        },
        Expression::Binary(op, a, b) => {
            let l = eval_const_expr(a);
            let r = eval_const_expr(b);
            match (l, r) {
                (Some(l), Some(r)) => binary_exec(*op, l, r),
                _ => None,
            }
        },
        Expression::Conditional(c, t, f) => match eval_const_expr(c) {
            None => None,
            Some(v) => if v != 0 {
                eval_const_expr(t)
            } else {
                eval_const_expr(f)
            },
        },
        Expression::Cast(x) => eval_const_expr(x),
        Expression::Comma(last) => match last {
            Some(x) => eval_const_expr(x),
            None => None,
        },
        Expression::Other => None,
    }
}

// ---------------------------------------------------------------------------
// Base types
// ---------------------------------------------------------------------------

/// The type a specifier names by itself: a record, enum or typedef reference, or an
/// opaque `_Complex` or `typeof`.
pub open spec fn named_type(t: TypeSpecifier) -> Option<TypeModel> {
    match t {
        TypeSpecifier::Struct(st) => Some(
            TypeModel::RecordRef(
                match st.identifier {
                    Some(n) => n@,
                    None => "<anonymous>"@,
                },
            ),
        ),
        TypeSpecifier::Enum(et) => Some(
            TypeModel::EnumRef(
                match et.identifier {
                    Some(n) => n@,
                    None => "<anonymous>"@,
                },
            ),
        ),
        TypeSpecifier::TypedefName(n) => Some(TypeModel::TypedefRef(n@)),
        TypeSpecifier::Complex => Some(TypeModel::Opaque("_Complex"@)),
        TypeSpecifier::TypeOf => Some(TypeModel::Opaque("typeof"@)),
        _ => None,
    }
}

/// The first specifier that names a type by itself.
pub open spec fn first_named(ts: Seq<TypeSpecifier>) -> Option<TypeModel>
    decreases ts.len(),
{
    if ts.len() == 0 {
        None
    } else {
        match named_type(ts[0]) {
            Some(m) => Some(m),
            None => first_named(ts.drop_first()),
        }
    }
}

/// The arithmetic keywords among a list of type specifiers.
pub struct KeywordFlags {
    pub void: bool,
    pub char: bool,
    pub short: bool,
    pub int: bool,
    /// How many `long`s, counted in a byte.
    pub longs: u8,
    pub float: bool,
    pub double: bool,
    pub signed: bool,
    pub unsigned: bool,
    pub bool: bool,
}

pub open spec fn no_keywords() -> KeywordFlags {
    KeywordFlags {
        void: false,
        char: false,
        short: false,
        int: false,
        longs: 0,
        float: false,
        double: false,
        signed: false,
        unsigned: false,
        bool: false,
    }
}

/// The flags after one more specifier.
pub open spec fn add_keyword(f: KeywordFlags, t: TypeSpecifier) -> KeywordFlags {
    match t {
        TypeSpecifier::Void => KeywordFlags { void: true, ..f },
        TypeSpecifier::Char => KeywordFlags { char: true, ..f },
        TypeSpecifier::Short => KeywordFlags { short: true, ..f },
        TypeSpecifier::Int => KeywordFlags { int: true, ..f },
        TypeSpecifier::Long => KeywordFlags { longs: f.longs.wrapping_add(1), ..f },
        TypeSpecifier::Float => KeywordFlags { float: true, ..f },
        TypeSpecifier::Double => KeywordFlags { double: true, ..f },
        TypeSpecifier::Signed => KeywordFlags { signed: true, ..f },
        TypeSpecifier::Unsigned => KeywordFlags { unsigned: true, ..f },
        TypeSpecifier::Bool => KeywordFlags { bool: true, ..f },
        _ => f,
    }
}

pub open spec fn keyword_flags(ts: Seq<TypeSpecifier>) -> KeywordFlags
    decreases ts.len(),
{
    if ts.len() == 0 {
        no_keywords()
    } else {
        add_keyword(keyword_flags(ts.drop_last()), ts.last())
    }
}

/// The arithmetic type that the keywords spell.
pub open spec fn keyword_type(f: KeywordFlags) -> TypeModel {
    if f.void {
        TypeModel::Void
    } else if f.bool {
        TypeModel::Bool
    } else if f.float {
        TypeModel::Float
    } else if f.double && f.longs > 0 {
        TypeModel::LongDouble
    } else if f.double {
        TypeModel::Double
    } else if f.char {
        if f.unsigned {
            TypeModel::UChar
        } else if f.signed {
            TypeModel::SChar
        } else {
            TypeModel::Char
        }
    } else if f.short {
        if f.unsigned {
            TypeModel::UShort
        } else {
            TypeModel::Short
        }
    } else if f.longs >= 2 {
        if f.unsigned {
            TypeModel::ULongLong
        } else {
            TypeModel::LongLong
        }
    } else if f.longs == 1 {
        if f.unsigned {
            TypeModel::ULong
        } else {
            TypeModel::Long
        }
    } else if f.unsigned {
        TypeModel::UInt
    } else {
        TypeModel::Int
    }
}

/// The type that a list of type specifiers spells: `int` when there is none, the first
/// record, enum, typedef, `_Complex` or `typeof` specifier when there is one, else the
/// arithmetic type of the keywords.
pub open spec fn base_type(ts: Seq<TypeSpecifier>) -> TypeModel {
    if ts.len() == 0 {
        TypeModel::Int
    } else {
        match first_named(ts) {
            Some(m) => m,
            None => keyword_type(keyword_flags(ts)),
        }
    }
}

/// How many `long` specifiers a list holds.
pub open spec fn long_count(ts: Seq<TypeSpecifier>) -> nat
    decreases ts.len(),
{
    if ts.len() == 0 {
        0
    } else {
        long_count(ts.drop_last()) + if ts.last() == TypeSpecifier::Long {
            1nat
        } else {
            0nat
        }
    }
}

proof fn lemma_contains_last(ts: Seq<TypeSpecifier>, k: TypeSpecifier)
    requires
        ts.len() > 0,
    ensures
        ts.contains(k) <==> (ts.drop_last().contains(k) || ts.last() == k),
{
    let p = ts.drop_last();
    if ts.contains(k) {
        let i = choose|i: int| 0 <= i < ts.len() && ts[i] == k;
        if i < ts.len() - 1 {
            assert(p[i] == ts[i]);
        }
    }
    if p.contains(k) {
        let i = choose|i: int| 0 <= i < p.len() && p[i] == k;
        assert(ts[i] == p[i]);
    }
    if ts.last() == k {
        assert(ts[ts.len() - 1] == k);
    }
}

/// Each keyword flag is set exactly when the list holds that keyword, and `longs`
/// counts the `long`s while they fit in a byte.
proof fn lemma_keyword_flags_spelled(ts: Seq<TypeSpecifier>)
    ensures
        keyword_flags(ts).void <==> ts.contains(TypeSpecifier::Void),
        keyword_flags(ts).char <==> ts.contains(TypeSpecifier::Char),
        keyword_flags(ts).short <==> ts.contains(TypeSpecifier::Short),
        keyword_flags(ts).float <==> ts.contains(TypeSpecifier::Float),
        keyword_flags(ts).double <==> ts.contains(TypeSpecifier::Double),
        keyword_flags(ts).signed <==> ts.contains(TypeSpecifier::Signed),
        keyword_flags(ts).unsigned <==> ts.contains(TypeSpecifier::Unsigned),
        keyword_flags(ts).bool <==> ts.contains(TypeSpecifier::Bool),
        long_count(ts) < 256 ==> keyword_flags(ts).longs == long_count(ts),
    decreases ts.len(),
{
    if ts.len() > 0 {
        let p = ts.drop_last();
        lemma_keyword_flags_spelled(p);
        lemma_contains_last(ts, TypeSpecifier::Void);
        lemma_contains_last(ts, TypeSpecifier::Char);
        lemma_contains_last(ts, TypeSpecifier::Short);
        lemma_contains_last(ts, TypeSpecifier::Float);
        lemma_contains_last(ts, TypeSpecifier::Double);
        lemma_contains_last(ts, TypeSpecifier::Signed);
        lemma_contains_last(ts, TypeSpecifier::Unsigned);
        lemma_contains_last(ts, TypeSpecifier::Bool);
    }
}

/// `unsigned` keeps an integer type unsigned: keyword specifiers that hold `unsigned`,
/// name no record, enum or typedef, and spell no `void`, `_Bool`, `float` or `double`
/// give `unsigned char` with `char`, else `unsigned short` with `short`, else
/// `unsigned long long` with two or more `long`s, `unsigned long` with one, and
/// `unsigned int` with none.
pub proof fn lemma_unsigned_keywords_give_unsigned_types(ts: Seq<TypeSpecifier>)
    requires
        first_named(ts) is None,
        ts.contains(TypeSpecifier::Unsigned),
        !ts.contains(TypeSpecifier::Void),
        !ts.contains(TypeSpecifier::Bool),
        !ts.contains(TypeSpecifier::Float),
        !ts.contains(TypeSpecifier::Double),
        long_count(ts) < 256,
    ensures
        ts.contains(TypeSpecifier::Char) ==> base_type(ts) == TypeModel::UChar,
        !ts.contains(TypeSpecifier::Char) && ts.contains(TypeSpecifier::Short) ==> base_type(ts)
            == TypeModel::UShort,
        !ts.contains(TypeSpecifier::Char) && !ts.contains(TypeSpecifier::Short) && long_count(ts)
            >= 2 ==> base_type(ts) == TypeModel::ULongLong,
        !ts.contains(TypeSpecifier::Char) && !ts.contains(TypeSpecifier::Short) && long_count(ts)
            == 1 ==> base_type(ts) == TypeModel::ULong,
        !ts.contains(TypeSpecifier::Char) && !ts.contains(TypeSpecifier::Short) && long_count(ts)
            == 0 ==> base_type(ts) == TypeModel::UInt,
{
    lemma_keyword_flags_spelled(ts);
}

/// Without `unsigned` the same keywords give the signed types: `char` (or `signed char`
/// with `signed`), `short`, `long long`, `long` and `int`.
pub proof fn lemma_keywords_without_unsigned_give_signed_types(ts: Seq<TypeSpecifier>)
    requires
        ts.len() > 0,
        first_named(ts) is None,
        !ts.contains(TypeSpecifier::Unsigned),
        !ts.contains(TypeSpecifier::Void),
        !ts.contains(TypeSpecifier::Bool),
        !ts.contains(TypeSpecifier::Float),
        !ts.contains(TypeSpecifier::Double),
        long_count(ts) < 256,
    ensures
        ts.contains(TypeSpecifier::Char) ==> base_type(ts) == if ts.contains(TypeSpecifier::Signed) {
            TypeModel::SChar
        } else {
            TypeModel::Char
        },
        !ts.contains(TypeSpecifier::Char) && ts.contains(TypeSpecifier::Short) ==> base_type(ts)
            == TypeModel::Short,
        !ts.contains(TypeSpecifier::Char) && !ts.contains(TypeSpecifier::Short) && long_count(ts)
            >= 2 ==> base_type(ts) == TypeModel::LongLong,
        !ts.contains(TypeSpecifier::Char) && !ts.contains(TypeSpecifier::Short) && long_count(ts)
            == 1 ==> base_type(ts) == TypeModel::Long,
        !ts.contains(TypeSpecifier::Char) && !ts.contains(TypeSpecifier::Short) && long_count(ts)
            == 0 ==> base_type(ts) == TypeModel::Int,
{
    lemma_keyword_flags_spelled(ts);
}

/// The specifiers behind a list of references.
pub open spec fn deref_specs(ts: Seq<&TypeSpecifier>) -> Seq<TypeSpecifier> {
    ts.map_values(|t: &TypeSpecifier| *t)
}

fn add_keyword_exec(f: KeywordFlags, t: &TypeSpecifier) -> (r: KeywordFlags)
    ensures
        r == add_keyword(f, *t),
{
    match t {
        TypeSpecifier::Void => KeywordFlags { void: true, ..f },
        TypeSpecifier::Char => KeywordFlags { char: true, ..f },
        TypeSpecifier::Short => KeywordFlags { short: true, ..f },
        TypeSpecifier::Int => KeywordFlags { int: true, ..f },
        TypeSpecifier::Long => KeywordFlags { longs: f.longs.wrapping_add(1), ..f },
        TypeSpecifier::Float => KeywordFlags { float: true, ..f },
        TypeSpecifier::Double => KeywordFlags { double: true, ..f },
        TypeSpecifier::Signed => KeywordFlags { signed: true, ..f },
        TypeSpecifier::Unsigned => KeywordFlags { unsigned: true, ..f },
        TypeSpecifier::Bool => KeywordFlags { bool: true, ..f },
        _ => f,
    }
}

fn keyword_type_exec(f: &KeywordFlags) -> (r: BindingType)
    ensures
        type_model(r) == keyword_type(*f),
{
    if f.void {
        BindingType::Void
    } else if f.bool {
        BindingType::Bool
    } else if f.float {
        BindingType::Float
    } else if f.double && f.longs > 0 {
        BindingType::LongDouble
    } else if f.double {
        BindingType::Double
    } else if f.char {
        if f.unsigned {
            BindingType::UChar
        } else if f.signed {
            BindingType::SChar
        } else {
            BindingType::Char
        }
    } else if f.short {
        if f.unsigned {
            BindingType::UShort
        } else {
            BindingType::Short
        }
    } else if f.longs >= 2 {
        if f.unsigned {
            BindingType::ULongLong
        } else {
            BindingType::LongLong
        }
    } else if f.longs == 1 {
        if f.unsigned {
            BindingType::ULong
        } else {
            BindingType::Long
        }
    } else if f.unsigned {
        BindingType::UInt
    } else {
        BindingType::Int
    }
}

fn name_or_anonymous(n: &Option<String>) -> (r: String)
    ensures
        r@ == match n {
            Some(s) => s@,
            None => "<anonymous>"@,
        },
{
    match n {
        Some(s) => s.clone(),
        None => "<anonymous>".to_owned(),
    }
}

/// The type that a list of type specifiers spells (see `base_type`).
pub fn resolve_base_type_from_type_specs(type_specs: &[&TypeSpecifier]) -> (r: BindingType)
    ensures
        type_model(r) == base_type(deref_specs(type_specs@)),
{
    let ghost ts = deref_specs(type_specs@);
    if type_specs.len() == 0 {
        return BindingType::Int;
    }
    let n = type_specs.len();
    let mut flags = KeywordFlags {
        void: false,
        char: false,
        short: false,
        int: false,
        longs: 0,
        float: false,
        double: false,
        signed: false,
        unsigned: false,
        bool: false,
    };
    let mut i: usize = 0;
    assert(ts.subrange(0, n as int) =~= ts);
    while i < n
        invariant
            n == type_specs@.len(),
            ts == deref_specs(type_specs@),
            i <= n,
            first_named(ts) == first_named(ts.subrange(i as int, n as int)),
            flags == keyword_flags(ts.subrange(0, i as int)),
        decreases n - i,
    {
        let t: &TypeSpecifier = type_specs[i];
        assert(ts[i as int] == *t);
        let ghost rest = ts.subrange(i as int, n as int);
        assert(rest[0] == *t);
        assert(rest.drop_first() =~= ts.subrange(i + 1, n as int));
        assert(ts.subrange(0, i + 1).drop_last() =~= ts.subrange(0, i as int));
        match t {
            TypeSpecifier::Struct(st) => {
                return BindingType::RecordRef(name_or_anonymous(&st.identifier));
            },
            TypeSpecifier::Enum(et) => {
                return BindingType::EnumRef(name_or_anonymous(&et.identifier));
            },
            TypeSpecifier::TypedefName(name) => {
                return BindingType::TypedefRef(name.clone());
            },
            TypeSpecifier::Complex => {
                return BindingType::Opaque("_Complex".to_owned());
            },
            TypeSpecifier::TypeOf => {
                return BindingType::Opaque("typeof".to_owned());
            },
            _ => {},
        }
        flags = add_keyword_exec(flags, t);
        i = i + 1;
    }
    assert(ts.subrange(0, n as int) =~= ts);
    keyword_type_exec(&flags)
}

// ---------------------------------------------------------------------------
// Specifier lists
// ---------------------------------------------------------------------------

/// The type specifiers among declaration specifiers, in order.
pub open spec fn decl_type_specs(ds: Seq<DeclarationSpecifier>) -> Seq<TypeSpecifier>
    decreases ds.len(),
{
    if ds.len() == 0 {
        seq![]
    } else {
        decl_type_specs(ds.drop_last()) + match ds.last() {
            DeclarationSpecifier::TypeSpecifier(t) => seq![t],
            _ => seq![],
        }
    }
}

/// The type specifiers among a member's specifiers and qualifiers, in order.
pub open spec fn member_type_specs(sq: Seq<SpecifierQualifier>) -> Seq<TypeSpecifier>
    decreases sq.len(),
{
    if sq.len() == 0 {
        seq![]
    } else {
        member_type_specs(sq.drop_last()) + match sq.last() {
            SpecifierQualifier::TypeSpecifier(t) => seq![t],
            _ => seq![],
        }
    }
}

/// References to the type specifiers among declaration specifiers.
pub fn type_specs_of_declaration(ds: &[DeclarationSpecifier]) -> (r: Vec<&TypeSpecifier>)
    ensures
        deref_specs(r@) == decl_type_specs(ds@),
{
    let mut r: Vec<&TypeSpecifier> = Vec::new();
    let mut i: usize = 0;
    while i < ds.len()
        invariant
            i <= ds@.len(),
            deref_specs(r@) == decl_type_specs(ds@.subrange(0, i as int)),
        decreases ds@.len() - i,
    {
        assert(ds@.subrange(0, i + 1).drop_last() =~= ds@.subrange(0, i as int));
        assert(ds@.subrange(0, i + 1).last() == ds@[i as int]);
        match &ds[i] {
            DeclarationSpecifier::TypeSpecifier(t) => {
                let ghost before = r@;
                r.push(t);
                assert(deref_specs(r@) =~= deref_specs(before) + seq![*t]);
            },
            _ => {
                assert(decl_type_specs(ds@.subrange(0, i + 1)) =~= decl_type_specs(ds@.subrange(0, i as int)));
            },
        }
        i = i + 1;
    }
    assert(ds@.subrange(0, ds@.len() as int) =~= ds@);
    r
}

/// References to the type specifiers among a member's specifiers and qualifiers.
pub fn type_specs_of_member(sq: &[SpecifierQualifier]) -> (r: Vec<&TypeSpecifier>)
    ensures
        deref_specs(r@) == member_type_specs(sq@),
{
    let mut r: Vec<&TypeSpecifier> = Vec::new();
    let mut i: usize = 0;
    while i < sq.len()
        invariant
            i <= sq@.len(),
            deref_specs(r@) == member_type_specs(sq@.subrange(0, i as int)),
        decreases sq@.len() - i,
    {
        assert(sq@.subrange(0, i + 1).drop_last() =~= sq@.subrange(0, i as int));
        assert(sq@.subrange(0, i + 1).last() == sq@[i as int]);
        match &sq[i] {
            SpecifierQualifier::TypeSpecifier(t) => {
                let ghost before = r@;
                r.push(t);
                assert(deref_specs(r@) =~= deref_specs(before) + seq![*t]);
            },
            _ => {
                assert(member_type_specs(sq@.subrange(0, i + 1)) =~= member_type_specs(sq@.subrange(0, i as int)));
            },
        }
        i = i + 1;
    }
    assert(sq@.subrange(0, sq@.len() as int) =~= sq@);
    r
}

// ---------------------------------------------------------------------------
// Qualifiers
// ---------------------------------------------------------------------------

/// The qualifiers after one more qualifier keyword (nullability keywords add nothing).
pub open spec fn add_qualifier(q: TypeQualifiers, k: TypeQualifier) -> TypeQualifiers {
    match k {
        TypeQualifier::Const => TypeQualifiers { is_const: true, ..q },
        TypeQualifier::Volatile => TypeQualifiers { is_volatile: true, ..q },
        TypeQualifier::Restrict => TypeQualifiers { is_restrict: true, ..q },
        TypeQualifier::Atomic => TypeQualifiers { is_atomic: true, ..q },
        _ => q,
    }
}

pub open spec fn qualifiers_of(ks: Seq<TypeQualifier>) -> TypeQualifiers
    decreases ks.len(),
{
    if ks.len() == 0 {
        no_qualifiers()
    } else {
        add_qualifier(qualifiers_of(ks.drop_last()), ks.last())
    }
}

/// The qualifier keywords among declaration specifiers, in order.
pub open spec fn decl_qualifier_list(ds: Seq<DeclarationSpecifier>) -> Seq<TypeQualifier>
    decreases ds.len(),
{
    if ds.len() == 0 {
        seq![]
    } else {
        decl_qualifier_list(ds.drop_last()) + match ds.last() {
            DeclarationSpecifier::TypeQualifier(k) => seq![k],
            _ => seq![],
        }
    }
}

/// The qualifier keywords among a member's specifiers and qualifiers, in order.
pub open spec fn member_qualifier_list(sq: Seq<SpecifierQualifier>) -> Seq<TypeQualifier>
    decreases sq.len(),
{
    if sq.len() == 0 {
        seq![]
    } else {
        member_qualifier_list(sq.drop_last()) + match sq.last() {
            SpecifierQualifier::TypeQualifier(k) => seq![k],
            _ => seq![],
        }
    }
}

fn apply_type_qualifier(q: TypeQualifiers, k: &TypeQualifier) -> (r: TypeQualifiers)
    ensures
        r == add_qualifier(q, *k),
{
    match k {
        TypeQualifier::Const => TypeQualifiers { is_const: true, ..q },
        TypeQualifier::Volatile => TypeQualifiers { is_volatile: true, ..q },
        TypeQualifier::Restrict => TypeQualifiers { is_restrict: true, ..q },
        TypeQualifier::Atomic => TypeQualifiers { is_atomic: true, ..q },
        _ => q,
    }
}

fn empty_qualifiers() -> (r: TypeQualifiers)
    ensures
        r == no_qualifiers(),
{
    TypeQualifiers { is_const: false, is_volatile: false, is_restrict: false, is_atomic: false }
}

/// The qualifiers of a pointer's own qualifier keywords.
pub fn qualifiers_from_pointer_qualifiers(ks: &[TypeQualifier]) -> (r: TypeQualifiers)
    ensures
        r == qualifiers_of(ks@),
{
    let mut q = empty_qualifiers();
    let mut i: usize = 0;
    while i < ks.len()
        invariant
            i <= ks@.len(),
            q == qualifiers_of(ks@.subrange(0, i as int)),
        decreases ks@.len() - i,
    {
        assert(ks@.subrange(0, i + 1).drop_last() =~= ks@.subrange(0, i as int));
        q = apply_type_qualifier(q, &ks[i]);
        i = i + 1;
    }
    assert(ks@.subrange(0, ks@.len() as int) =~= ks@);
    q
}

proof fn lemma_qualifiers_append(ks: Seq<TypeQualifier>, more: Seq<TypeQualifier>)
    requires
        more.len() <= 1,
    ensures
        qualifiers_of(ks + more) == if more.len() == 0 {
            qualifiers_of(ks)
        } else {
            add_qualifier(qualifiers_of(ks), more[0])
        },
{
    if more.len() == 0 {
        assert(ks + more =~= ks);
    } else {
        assert((ks + more).drop_last() =~= ks);
    }
}

/// The qualifiers among declaration specifiers.
pub fn qualifiers_from_declaration_specifiers(ds: &[DeclarationSpecifier]) -> (r: TypeQualifiers)
    ensures
        r == qualifiers_of(decl_qualifier_list(ds@)),
{
    let mut q = empty_qualifiers();
    let mut i: usize = 0;
    while i < ds.len()
        invariant
            i <= ds@.len(),
            q == qualifiers_of(decl_qualifier_list(ds@.subrange(0, i as int))),
        decreases ds@.len() - i,
    {
        let ghost pre = ds@.subrange(0, i as int);
        assert(ds@.subrange(0, i + 1).drop_last() =~= pre);
        assert(ds@.subrange(0, i + 1).last() == ds@[i as int]);
        match &ds[i] {
            DeclarationSpecifier::TypeQualifier(k) => {
                proof {
                    lemma_qualifiers_append(decl_qualifier_list(pre), seq![*k]);
                }
                q = apply_type_qualifier(q, k);
            },
            _ => {
                proof {
                    lemma_qualifiers_append(decl_qualifier_list(pre), seq![]);
                }
            },
        }
        i = i + 1;
    }
    assert(ds@.subrange(0, ds@.len() as int) =~= ds@);
    q
}

/// The qualifiers among a member's specifiers and qualifiers.
pub fn qualifiers_from_specifier_qualifiers(sq: &[SpecifierQualifier]) -> (r: TypeQualifiers)
    ensures
        r == qualifiers_of(member_qualifier_list(sq@)),
{
    let mut q = empty_qualifiers();
    let mut i: usize = 0;
    while i < sq.len()
        invariant
            i <= sq@.len(),
            q == qualifiers_of(member_qualifier_list(sq@.subrange(0, i as int))),
        decreases sq@.len() - i,
    {
        let ghost pre = sq@.subrange(0, i as int);
        assert(sq@.subrange(0, i + 1).drop_last() =~= pre);
        assert(sq@.subrange(0, i + 1).last() == sq@[i as int]);
        match &sq[i] {
            SpecifierQualifier::TypeQualifier(k) => {
                proof {
                    lemma_qualifiers_append(member_qualifier_list(pre), seq![*k]);
                }
                q = apply_type_qualifier(q, k);
            },
            _ => {
                proof {
                    lemma_qualifiers_append(member_qualifier_list(pre), seq![]);
                }
            },
        }
        i = i + 1;
    }
    assert(sq@.subrange(0, sq@.len() as int) =~= sq@);
    q
}

// ---------------------------------------------------------------------------
// Calling conventions
// ---------------------------------------------------------------------------

/// The calling convention an attribute name selects, compared trimmed and in ASCII
/// lower case.
pub open spec fn convention_named(name: Seq<char>) -> Option<CallingConvention> {
    let n = lower_ascii(trim_s(name));
    if n == "cdecl"@ || n == "__cdecl"@ {
        Some(CallingConvention::Cdecl)
    } else if n == "stdcall"@ || n == "__stdcall"@ {
        Some(CallingConvention::Stdcall)
    } else if n == "fastcall"@ || n == "__fastcall"@ {
        Some(CallingConvention::Fastcall)
    } else if n == "vectorcall"@ || n == "__vectorcall"@ {
        Some(CallingConvention::Vectorcall)
    } else if n == "thiscall"@ || n == "__thiscall"@ {
        Some(CallingConvention::Thiscall)
    } else {
        None
    }
}

fn is_word(v: &Vec<char>, w: &str) -> (r: bool)
    ensures
        r == (v@ == w@),
{
    let wv = chars_of(w);
    chars_eq(v, &wv)
}

/// The calling convention an attribute name selects, if any.
pub fn calling_convention_from_attr_name(name: &str) -> (r: Option<CallingConvention>)
    ensures
        r == convention_named(name@),
{
    let v = chars_of(name);
    let (lo, hi) = trim_range(&v, 0, v.len());
    assert(v@.subrange(0, v@.len() as int) =~= v@);
    let t = slice_chars(&v, lo, hi);
    let n = lower_ascii_chars(&t);
    if is_word(&n, "cdecl") || is_word(&n, "__cdecl") {
        Some(CallingConvention::Cdecl)
    } else if is_word(&n, "stdcall") || is_word(&n, "__stdcall") {
        Some(CallingConvention::Stdcall)
    } else if is_word(&n, "fastcall") || is_word(&n, "__fastcall") {
        Some(CallingConvention::Fastcall)
    } else if is_word(&n, "vectorcall") || is_word(&n, "__vectorcall") {
        Some(CallingConvention::Vectorcall)
    } else if is_word(&n, "thiscall") || is_word(&n, "__thiscall") {
        Some(CallingConvention::Thiscall)
    } else {
        None
    }
}

/// The calling convention of the first attribute that names one.
pub open spec fn declared_convention(es: Seq<Extension>) -> Option<CallingConvention>
    decreases es.len(),
{
    if es.len() == 0 {
        None
    } else {
        match es[0] {
            Extension::Attribute(n) => match convention_named(n@) {
                Some(c) => Some(c),
                None => declared_convention(es.drop_first()),
            },
            _ => declared_convention(es.drop_first()),
        }
    }
}

/// The calling convention that a declarator's attributes select, if any.
pub fn detect_calling_convention(es: &[Extension]) -> (r: Option<CallingConvention>)
    ensures
        r == declared_convention(es@),
{
    let n = es.len();
    let mut i: usize = 0;
    assert(es@.subrange(0, n as int) =~= es@);
    while i < n
        invariant
            n == es@.len(),
            i <= n,
            declared_convention(es@) == declared_convention(es@.subrange(i as int, n as int)),
        decreases n - i,
    {
        let ghost rest = es@.subrange(i as int, n as int);
        assert(rest[0] == es@[i as int]);
        assert(rest.drop_first() =~= es@.subrange(i + 1, n as int));
        match &es[i] {
            Extension::Attribute(name) => {
                match calling_convention_from_attr_name(name.as_str()) {
                    Some(c) => {
                        return Some(c);
                    },
                    None => {},
                }
            },
            _ => {},
        }
        i = i + 1;
    }
    None
}

// ---------------------------------------------------------------------------
// Declarators and derived types
// ---------------------------------------------------------------------------

/// The name a declarator declares, looking through parentheses.
pub open spec fn declarator_name(d: Declarator) -> Option<Seq<char>>
    decreases d,
{
    match d.kind {
        DeclaratorKind::Identifier(n) => Some(n@),
        DeclaratorKind::Declarator(inner) => declarator_name(*inner),
        DeclaratorKind::Abstract => None,
    }
}

/// The name a declarator declares.
pub fn declarator_name_exec(d: &Declarator) -> (r: Option<String>)
    ensures
        opt_str(r) == declarator_name(*d),
    decreases d,
{
    match &d.kind {
        DeclaratorKind::Identifier(n) => Some(n.clone()),
        DeclaratorKind::Declarator(inner) => declarator_name_exec(inner),
        DeclaratorKind::Abstract => None,
    }
}

/// The type with its innermost pointer made a pointer to const (`const char *`).
pub open spec fn mark_innermost_const(t: TypeModel) -> TypeModel
    decreases t,
{
    match t {
        TypeModel::Pointer(p, _, q) => match *p {
            TypeModel::Pointer(_, _, _) => TypeModel::Pointer(Box::new(mark_innermost_const(*p)), false, q),
            _ => TypeModel::Pointer(p, true, q),
        },
        TypeModel::Qualified(x, q) => TypeModel::Qualified(Box::new(mark_innermost_const(*x)), q),
        _ => t,
    }
}

/// Whether the type is a pointer, possibly under qualifiers.
pub open spec fn has_pointer_layer(t: TypeModel) -> bool
    decreases t,
{
    match t {
        TypeModel::Pointer(_, _, _) => true,
        TypeModel::Qualified(x, _) => has_pointer_layer(*x),
        _ => false,
    }
}

/// The type under the qualifiers, unless there are none.
pub open spec fn qualified_model(t: TypeModel, q: TypeQualifiers) -> TypeModel {
    if q == no_qualifiers() {
        t
    } else {
        TypeModel::Qualified(Box::new(t), q)
    }
}

/// The declared type with the qualifiers of its specifiers: `const` of a pointer type
/// qualifies what it points to, the others the type itself.
pub open spec fn with_base_qualifiers(t: TypeModel, q: TypeQualifiers) -> TypeModel {
    let t1 = if q.is_const {
        mark_innermost_const(t)
    } else {
        t
    };
    let q1 = if q.is_const && has_pointer_layer(t1) {
        TypeQualifiers { is_const: false, ..q }
    } else {
        q
    };
    qualified_model(t1, q1)
}

/// The length of an array declarator, when it is a constant (truncated to 64 bits).
pub open spec fn array_len(size: ArraySize) -> Option<u64> {
    match size {
        ArraySize::VariableExpression(e) => match const_value(e) {
            Some(v) => Some(v as u64),
            None => None,
        },
        ArraySize::StaticExpression(e) => match const_value(e) {
            Some(v) => Some(v as u64),
            None => None,
        },
        _ => None,
    }
}

/// Pointers wrapped around a type, innermost first.
pub open spec fn wrap_pointers(t: TypeModel, ps: Seq<TypeQualifiers>) -> TypeModel
    decreases ps.len(),
{
    if ps.len() == 0 {
        t
    } else {
        wrap_pointers(TypeModel::Pointer(Box::new(t), false, ps[0]), ps.drop_first())
    }
}

/// The type a declarator derives from a base type: arrays and prototypes wrap it in
/// order, then the pointers it declares, then any parenthesized inner declarator.
pub open spec fn derived_type(base: TypeModel, d: Declarator) -> TypeModel
    decreases d, 0int,
{
    let st = derived_state(base, d.derived@);
    let t = wrap_pointers(st.0, st.1);
    match d.kind {
        DeclaratorKind::Declarator(inner) => derived_type(t, *inner),
        _ => t,
    }
}

/// The type so far and the pointer qualifiers collected so far, after some derived
/// parts.
pub open spec fn derived_state(base: TypeModel, ds: Seq<DerivedDeclarator>) -> (TypeModel, Seq<TypeQualifiers>)
    decreases ds, 0int,
{
    if ds.len() == 0 {
        (base, seq![])
    } else {
        let st = derived_state(base, ds.drop_last());
        match ds.last() {
            DerivedDeclarator::Pointer(ks) => (st.0, st.1.push(qualifiers_of(ks@))),
            DerivedDeclarator::Array(size) => (TypeModel::Array(Box::new(st.0), array_len(size)), st.1),
            DerivedDeclarator::Function(params, ellipsis) => (
                TypeModel::FunctionPointer(Box::new(st.0), param_types(params@), ellipsis),
                st.1,
            ),
            _ => st,
        }
    }
}

/// The types of the parameters of a prototype.
pub open spec fn param_types(ps: Seq<ParameterDeclaration>) -> Seq<TypeModel>
    decreases ps, 2int,
{
    param_models(ps).map_values(|m: (Option<Seq<char>>, TypeModel)| m.1)
}

/// The name and type of each parameter of a prototype; a lone unnamed `void` stands for
/// none.
pub open spec fn param_models(ps: Seq<ParameterDeclaration>) -> Seq<(Option<Seq<char>>, TypeModel)>
    decreases ps, 1int,
{
    if ps.len() == 1 && ps[0].declarator is None && base_type(decl_type_specs(ps[0].specifiers@))
        == TypeModel::Void {
        seq![]
    } else {
        each_param_model(ps)
    }
}

pub open spec fn each_param_model(ps: Seq<ParameterDeclaration>) -> Seq<(Option<Seq<char>>, TypeModel)>
    decreases ps, 0int,
{
    if ps.len() == 0 {
        seq![]
    } else {
        each_param_model(ps.drop_last()).push(param_model(ps.last()))
    }
}

/// The name and type of one parameter.
pub open spec fn param_model(p: ParameterDeclaration) -> (Option<Seq<char>>, TypeModel)
    decreases p, 0int,
{
    let base = base_type(decl_type_specs(p.specifiers@));
    let q = qualifiers_of(decl_qualifier_list(p.specifiers@));
    match p.declarator {
        Some(d) => (declarator_name(d), with_base_qualifiers(derived_type(base, d), q)),
        None => (None, with_base_qualifiers(base, q)),
    }
}

/// The model of an extracted parameter: its name and type.
pub open spec fn parameter_model(p: ParameterBinding) -> (Option<Seq<char>>, TypeModel) {
    (opt_str(p.name), type_model(p.ty))
}

pub open spec fn parameter_models(ps: Seq<ParameterBinding>) -> Seq<(Option<Seq<char>>, TypeModel)> {
    ps.map_values(|p: ParameterBinding| parameter_model(p))
}

/// The type with its innermost pointer made a pointer to const.
pub fn mark_innermost_pointer_const(ty: BindingType) -> (r: BindingType)
    ensures
        type_model(r) == mark_innermost_const(type_model(ty)),
    decreases ty,
{
    match ty {
        BindingType::Pointer { pointee, const_pointee, qualifiers } => {
            let inner = *pointee;
            match inner {
                BindingType::Pointer { .. } => BindingType::Pointer {
                    pointee: Box::new(mark_innermost_pointer_const(inner)),
                    const_pointee: false,
                    qualifiers,
                },
                _ => BindingType::Pointer { pointee: Box::new(inner), const_pointee: true, qualifiers },
            }
        },
        BindingType::Qualified { ty, qualifiers } => BindingType::Qualified {
            ty: Box::new(mark_innermost_pointer_const(*ty)),
            qualifiers,
        },
        other => other,
    }
}

/// Whether the type is a pointer, possibly under qualifiers.
pub fn type_has_pointer_layer(ty: &BindingType) -> (r: bool)
    ensures
        r == has_pointer_layer(type_model(*ty)),
    decreases ty,
{
    match ty {
        BindingType::Pointer { .. } => true,
        BindingType::Qualified { ty, .. } => type_has_pointer_layer(ty),
        _ => false,
    }
}

/// The declared type with the qualifiers of its specifiers (see `with_base_qualifiers`).
pub fn apply_base_qualifiers(ty: BindingType, qualifiers: TypeQualifiers) -> (r: BindingType)
    ensures
        type_model(r) == with_base_qualifiers(type_model(ty), qualifiers),
{
    let t = if qualifiers.is_const {
        mark_innermost_pointer_const(ty)
    } else {
        ty
    };
    let q = if qualifiers.is_const && type_has_pointer_layer(&t) {
        TypeQualifiers { is_const: false, ..qualifiers }
    } else {
        qualifiers
    };
    let r = BindingType::qualified(t, q);
    proof {
        if q == no_qualifiers() {
        } else {
            assert(type_model(r) == TypeModel::Qualified(Box::new(type_model(t)), q));
        }
    }
    r
}

/// The length of an array declarator, when it is a constant.
pub fn array_length(size: &ArraySize) -> (r: Option<u64>)
    ensures
        r == array_len(*size),
{
    match size {
        ArraySize::VariableExpression(e) => match eval_const_expr(e) {
            Some(v) => Some(v as u64),
            None => None,
        },
        ArraySize::StaticExpression(e) => match eval_const_expr(e) {
            Some(v) => Some(v as u64),
            None => None,
        },
        _ => None,
    }
}

fn parameter_types(ps: &Vec<ParameterBinding>) -> (r: Vec<BindingType>)
    ensures
        type_models(r@) == parameter_models(ps@).map_values(|m: (Option<Seq<char>>, TypeModel)| m.1),
{
    let mut r: Vec<BindingType> = Vec::new();
    let mut i: usize = 0;
    while i < ps.len()
        invariant
            i <= ps@.len(),
            r@.len() == i,
            forall|k: int| 0 <= k < i ==> type_model(#[trigger] r@[k]) == type_model(ps@[k].ty),
        decreases ps@.len() - i,
    {
        let t = ps[i].ty.duplicate();
        proof {
            lemma_same_type_model(ps@[i as int].ty, t);
        }
        r.push(t);
        i = i + 1;
    }
    proof {
        lemma_type_models_index(r@);
        let want = parameter_models(ps@).map_values(|m: (Option<Seq<char>>, TypeModel)| m.1);
        assert forall|k: int| 0 <= k < r@.len() implies type_models(r@)[k] == want[k] by {
            assert(type_models(r@)[k] == type_model(r@[k]));
            assert(parameter_models(ps@)[k] == parameter_model(ps@[k]));
        }
        assert(type_models(r@) =~= want);
    }
    r
}

/// The type a declarator derives from a base type (see `derived_type`).
pub fn apply_derived_type(base: BindingType, d: &Declarator) -> (r: BindingType)
    ensures
        type_model(r) == derived_type(type_model(base), *d),
    decreases d, 0int,
{
    let ghost base_model = type_model(base);
    let mut ty = base;
    let mut pointers: Vec<TypeQualifiers> = Vec::new();
    let n = d.derived.len();
    let mut i: usize = 0;
    while i < n
        invariant
            n == d.derived@.len(),
            i <= n,
            (type_model(ty), pointers@) == derived_state(base_model, d.derived@.subrange(0, i as int)),
        decreases n - i,
    {
        let ghost pre = d.derived@.subrange(0, i as int);
        assert(d.derived@.subrange(0, i + 1).drop_last() =~= pre);
        assert(d.derived@.subrange(0, i + 1).last() == d.derived@[i as int]);
        match &d.derived[i] {
            DerivedDeclarator::Pointer(ks) => {
                let q = qualifiers_from_pointer_qualifiers(ks.as_slice());
                assert(q == qualifiers_of(ks@));
                pointers.push(q);
            },
            DerivedDeclarator::Array(size) => {
                let len = array_length(size);
                ty = BindingType::Array(Box::new(ty), len);
            },
            DerivedDeclarator::Function(params, ellipsis) => {
                assert(decreases_to!(d => d.derived@[i as int]));
                let ps = extract_parameters(params);
                let tys = parameter_types(&ps);
                assert(type_models(tys@) == param_types(params@));
                ty = BindingType::FunctionPointer { return_type: Box::new(ty), parameters: tys, variadic: *ellipsis };
            },
            _ => {},
        }
        i = i + 1;
    }
    assert(d.derived@.subrange(0, n as int) =~= d.derived@);
    let ghost st = derived_state(base_model, d.derived@);
    let m = pointers.len();
    let mut k: usize = 0;
    assert(pointers@.subrange(0, m as int) =~= pointers@);
    while k < m
        invariant
            m == pointers@.len(),
            k <= m,
            wrap_pointers(st.0, st.1) == wrap_pointers(type_model(ty), pointers@.subrange(k as int, m as int)),
        decreases m - k,
    {
        assert(pointers@.subrange(k as int, m as int).drop_first() =~= pointers@.subrange(k + 1, m as int));
        ty = BindingType::Pointer { pointee: Box::new(ty), const_pointee: false, qualifiers: pointers[k] };
        k = k + 1;
    }
    match &d.kind {
        DeclaratorKind::Declarator(inner) => apply_derived_type(ty, inner),
        _ => ty,
    }
}

fn is_void(t: &BindingType) -> (r: bool)
    ensures
        r == (type_model(*t) == TypeModel::Void),
{
    match t {
        BindingType::Void => true,
        _ => false,
    }
}

/// The parameters of a prototype (see `param_models`).
pub fn extract_parameters(ps: &Vec<ParameterDeclaration>) -> (r: Vec<ParameterBinding>)
    ensures
        parameter_models(r@) == param_models(ps@),
    decreases ps, 1int,
{
    if ps.len() == 1 {
        let p = &ps[0];
        if p.declarator.is_none() {
            let base = resolve_base_type(p.specifiers.as_slice());
            if is_void(&base) {
                let none: Vec<ParameterBinding> = Vec::new();
                assert(parameter_models(none@) =~= seq![]);
                return none;
            }
        }
    }
    let mut r: Vec<ParameterBinding> = Vec::new();
    let mut j: usize = 0;
    while j < ps.len()
        invariant
            j <= ps@.len(),
            parameter_models(r@) == each_param_model(ps@.subrange(0, j as int)),
        decreases ps@.len() - j,
    {
        assert(ps@.subrange(0, j + 1).drop_last() =~= ps@.subrange(0, j as int));
        assert(ps@.subrange(0, j + 1).last() == ps@[j as int]);
        assert(decreases_to!(ps => ps@[j as int]));
        let b = parameter_binding(&ps[j]);
        let ghost before = r@;
        r.push(b);
        assert(parameter_models(r@) =~= parameter_models(before).push(parameter_model(b)));
        j = j + 1;
    }
    assert(ps@.subrange(0, ps@.len() as int) =~= ps@);
    r
}

/// One parameter of a prototype (see `param_model`).
pub fn parameter_binding(p: &ParameterDeclaration) -> (r: ParameterBinding)
    ensures
        parameter_model(r) == param_model(*p),
    decreases p, 0int,
{
    let base = resolve_base_type(p.specifiers.as_slice());
    let q = qualifiers_from_declaration_specifiers(p.specifiers.as_slice());
    match &p.declarator {
        Some(d) => {
            let name = declarator_name_exec(d);
            let t = apply_derived_type(base, d);
            ParameterBinding { name, ty: apply_base_qualifiers(t, q) }
        },
        None => ParameterBinding { name: None, ty: apply_base_qualifiers(base, q) },
    }
}

// ---------------------------------------------------------------------------
// Models of extracted items and diagnostics
// ---------------------------------------------------------------------------

/// The model of a diagnostic.
pub struct DiagnosticModel {
    pub kind: DiagnosticKind,
    pub severity: Severity,
    pub message: Seq<char>,
    /// The file (if any) and byte offset of its location.
    pub location: Option<(Option<Seq<char>>, usize)>,
    pub item: Option<Seq<char>>,
    pub artifact: Option<Seq<char>>,
}

pub open spec fn diagnostic_model(d: Diagnostic) -> DiagnosticModel {
    DiagnosticModel {
        kind: d.kind,
        severity: d.severity,
        message: d.message@,
        location: match d.location {
            Some(l) => Some((opt_str(l.file), l.offset)),
            None => None,
        },
        item: opt_str(d.item_name),
        artifact: opt_str(d.artifact_path),
    }
}

pub open spec fn diagnostic_models(ds: Seq<Diagnostic>) -> Seq<DiagnosticModel> {
    ds.map_values(|d: Diagnostic| diagnostic_model(d))
}

/// A warning about the item `item`, located at `offset` when there is one.
pub open spec fn item_warning(kind: DiagnosticKind, message: Seq<char>, item: Seq<char>, offset: Option<usize>) -> DiagnosticModel {
    DiagnosticModel {
        kind,
        severity: Severity::Warning,
        message,
        location: match offset {
            Some(o) => Some((None, o)),
            None => None,
        },
        item: Some(item),
        artifact: None,
    }
}

/// The model of a record field.
pub struct FieldModel {
    pub name: Option<Seq<char>>,
    pub ty: TypeModel,
    pub bit_width: Option<u64>,
    pub layout: Option<FieldLayout>,
}

pub open spec fn field_model(f: FieldBinding) -> FieldModel {
    FieldModel { name: opt_str(f.name), ty: type_model(f.ty), bit_width: f.bit_width, layout: f.layout }
}

pub open spec fn field_models(fs: Seq<FieldBinding>) -> Seq<FieldModel> {
    fs.map_values(|f: FieldBinding| field_model(f))
}

/// The model of an IR item.
pub enum ItemModel {
    Function {
        name: Seq<char>,
        convention: CallingConvention,
        parameters: Seq<(Option<Seq<char>>, TypeModel)>,
        return_type: TypeModel,
        variadic: bool,
        offset: Option<usize>,
    },
    Record {
        kind: RecordKind,
        name: Option<Seq<char>>,
        fields: Option<Seq<FieldModel>>,
        representation: Option<RecordRepresentation>,
        abi_confidence: Option<AbiConfidence>,
        offset: Option<usize>,
    },
    Enum {
        name: Option<Seq<char>>,
        variants: Seq<(Seq<char>, Option<i128>)>,
        representation: Option<EnumRepresentation>,
        abi_confidence: Option<AbiConfidence>,
        offset: Option<usize>,
    },
    TypeAlias {
        name: Seq<char>,
        target: TypeModel,
        resolved: bool,
        abi_confidence: Option<AbiConfidence>,
        offset: Option<usize>,
    },
    Variable { name: Seq<char>, ty: TypeModel, offset: Option<usize> },
    Unsupported,
}

pub open spec fn item_model(it: BindingItem) -> ItemModel {
    match it {
        BindingItem::Function(f) => ItemModel::Function {
            name: f.name@,
            convention: f.calling_convention,
            parameters: parameter_models(f.parameters@),
            return_type: type_model(f.return_type),
            variadic: f.variadic,
            offset: f.source_offset,
        },
        BindingItem::Record(r) => ItemModel::Record {
            kind: r.kind,
            name: opt_str(r.name),
            fields: match r.fields {
                Some(fs) => Some(field_models(fs@)),
                None => None,
            },
            representation: r.representation,
            abi_confidence: r.abi_confidence,
            offset: r.source_offset,
        },
        BindingItem::Enum(e) => ItemModel::Enum {
            name: opt_str(e.name),
            variants: e.variants@.map_values(|v: EnumVariant| (v.name@, v.value)),
            representation: e.representation,
            abi_confidence: e.abi_confidence,
            offset: e.source_offset,
        },
        BindingItem::TypeAlias(a) => ItemModel::TypeAlias {
            name: a.name@,
            target: type_model(a.target),
            resolved: a.canonical_resolution.is_some(),
            abi_confidence: a.abi_confidence,
            offset: a.source_offset,
        },
        BindingItem::Variable(v) => ItemModel::Variable { name: v.name@, ty: type_model(v.ty), offset: v.source_offset },
        BindingItem::Unsupported(_) => ItemModel::Unsupported,
    }
}

pub open spec fn item_models(its: Seq<BindingItem>) -> Seq<ItemModel> {
    its.map_values(|it: BindingItem| item_model(it))
}

/// What extraction yields: items and diagnostics, each in order.
pub type Output = (Seq<ItemModel>, Seq<DiagnosticModel>);

pub open spec fn nothing() -> Output {
    (seq![], seq![])
}

pub open spec fn then(a: Output, b: Output) -> Output {
    (a.0 + b.0, a.1 + b.1)
}

// ---------------------------------------------------------------------------
// What each construct yields
// ---------------------------------------------------------------------------

/// A bit-field width: the constant's value when it fits in 64 unsigned bits.
pub open spec fn bit_width_of(e: Option<Expression>) -> Option<u64> {
    match e {
        Some(x) => match const_value(x) {
            Some(v) => if 0 <= v <= u64::MAX {
                Some(v as u64)
            } else {
                None
            },
            None => None,
        },
        None => None,
    }
}

/// One member declarator: its field, and a warning when it is a bit-field.
pub open spec fn member_field(sq: Seq<SpecifierQualifier>, sd: StructDeclarator) -> (FieldModel, Seq<DiagnosticModel>) {
    let name = match sd.declarator {
        Some(d) => declarator_name(d),
        None => None,
    };
    let base = base_type(member_type_specs(sq));
    let q = qualifiers_of(member_qualifier_list(sq));
    let t = match sd.declarator {
        Some(d) => derived_type(base, d),
        None => base,
    };
    let shown = match name {
        Some(n) => n,
        None => "<anonymous>"@,
    };
    (
        FieldModel { name, ty: with_base_qualifiers(t, q), bit_width: bit_width_of(sd.bit_width), layout: None },
        if sd.bit_width is Some {
            seq![item_warning(
                DiagnosticKind::DeclarationPartial,
                "bitfield layout partially represented on field '"@ + shown + "'"@,
                shown,
                None,
            )]
        } else {
            seq![]
        },
    )
}

pub open spec fn member_fields(sq: Seq<SpecifierQualifier>, sds: Seq<StructDeclarator>) -> (Seq<FieldModel>, Seq<DiagnosticModel>)
    decreases sds.len(),
{
    if sds.len() == 0 {
        (seq![], seq![])
    } else {
        let before = member_fields(sq, sds.drop_last());
        let last = member_field(sq, sds.last());
        (before.0.push(last.0), before.1 + last.1)
    }
}

/// The fields of one member declaration; one without declarators is an anonymous
/// field of its base type.
pub open spec fn declaration_fields(f: StructField) -> (Seq<FieldModel>, Seq<DiagnosticModel>) {
    if f.declarators@.len() == 0 {
        (
            seq![FieldModel { name: None, ty: base_type(member_type_specs(f.specifiers@)), bit_width: None, layout: None }],
            seq![],
        )
    } else {
        member_fields(f.specifiers@, f.declarators@)
    }
}

pub open spec fn body_fields(fs: Seq<StructField>) -> (Seq<FieldModel>, Seq<DiagnosticModel>)
    decreases fs.len(),
{
    if fs.len() == 0 {
        (seq![], seq![])
    } else {
        let before = body_fields(fs.drop_last());
        let last = declaration_fields(fs.last());
        (before.0 + last.0, before.1 + last.1)
    }
}

/// A record definition or reference: its item, after the warnings of its fields.
pub open spec fn record_output(st: StructType, offset: usize) -> Output {
    let body = match st.declarations {
        Some(fs) => (Some(body_fields(fs@).0), body_fields(fs@).1),
        None => (None, seq![]),
    };
    (
        seq![ItemModel::Record {
            kind: if st.is_union {
                RecordKind::Union
            } else {
                RecordKind::Struct
            },
            name: opt_str(st.identifier),
            fields: body.0,
            representation: None,
            abi_confidence: None,
            offset: Some(offset),
        }],
        body.1,
    )
}

/// An enum: its constants with their values.
pub open spec fn enum_item(et: EnumType, offset: usize) -> ItemModel {
    ItemModel::Enum {
        name: opt_str(et.identifier),
        variants: et.enumerators@.map_values(
            |e: Enumerator|
                (
                    e.identifier@,
                    match e.expression {
                        Some(x) => const_value(x),
                        None => None,
                    },
                ),
        ),
        representation: None,
        abi_confidence: None,
        offset: Some(offset),
    }
}

/// Record definitions with a body and enums with constants among specifiers.
pub open spec fn inline_definitions(ds: Seq<DeclarationSpecifier>, offset: usize) -> Output
    decreases ds.len(),
{
    if ds.len() == 0 {
        nothing()
    } else {
        then(
            inline_definitions(ds.drop_last(), offset),
            match ds.last() {
                DeclarationSpecifier::TypeSpecifier(TypeSpecifier::Struct(st)) => if st.declarations is Some {
                    record_output(st, offset)
                } else {
                    nothing()
                },
                DeclarationSpecifier::TypeSpecifier(TypeSpecifier::Enum(et)) => if et.enumerators@.len() > 0 {
                    (seq![enum_item(et, offset)], seq![])
                } else {
                    nothing()
                },
                _ => nothing(),
            },
        )
    }
}

/// Every record and enum specifier of a declaration without declarators.
pub open spec fn standalone_definitions(ds: Seq<DeclarationSpecifier>, offset: usize) -> Output
    decreases ds.len(),
{
    if ds.len() == 0 {
        nothing()
    } else {
        then(
            standalone_definitions(ds.drop_last(), offset),
            match ds.last() {
                DeclarationSpecifier::TypeSpecifier(TypeSpecifier::Struct(st)) => record_output(st, offset),
                DeclarationSpecifier::TypeSpecifier(TypeSpecifier::Enum(et)) => (seq![enum_item(et, offset)], seq![]),
                _ => nothing(),
            },
        )
    }
}

/// The full type of a declarator under declaration specifiers.
pub open spec fn full_type(ds: Seq<DeclarationSpecifier>, d: Declarator) -> TypeModel {
    with_base_qualifiers(
        derived_type(base_type(decl_type_specs(ds)), d),
        qualifiers_of(decl_qualifier_list(ds)),
    )
}

/// Return type, parameters and variadicity of a function declarator: each pointer
/// wraps the return type, and the last prototype gives the parameters.
pub open spec fn function_parts(ret: TypeModel, ds: Seq<DerivedDeclarator>) -> (TypeModel, Seq<(Option<Seq<char>>, TypeModel)>, bool)
    decreases ds.len(),
{
    if ds.len() == 0 {
        (ret, seq![], false)
    } else {
        let st = function_parts(ret, ds.drop_last());
        match ds.last() {
            DerivedDeclarator::Pointer(_) => (TypeModel::Pointer(Box::new(st.0), false, no_qualifiers()), st.1, st.2),
            DerivedDeclarator::Function(params, ellipsis) => (st.0, param_models(params@), ellipsis),
            _ => st,
        }
    }
}

/// The function a declarator declares.
pub open spec fn function_item(ds: Seq<DeclarationSpecifier>, d: Declarator, name: Seq<char>, offset: usize) -> ItemModel {
    let parts = function_parts(base_type(decl_type_specs(ds)), d.derived@);
    ItemModel::Function {
        name,
        convention: match declared_convention(d.extensions@) {
            Some(c) => c,
            None => CallingConvention::C,
        },
        parameters: parts.1,
        return_type: with_base_qualifiers(parts.0, qualifiers_of(decl_qualifier_list(ds))),
        variadic: parts.2,
        offset: Some(offset),
    }
}

/// A warning on the item `name` at `offset` with message `head 'name'` .
pub open spec fn named_warning(kind: DiagnosticKind, head: Seq<char>, name: Seq<char>, offset: usize) -> DiagnosticModel {
    item_warning(kind, head + "'"@ + name + "'"@, name, Some(offset))
}

/// The warning for one specifier that has no binding form, if it is one.
pub open spec fn specifier_warning(d: DeclarationSpecifier, name: Seq<char>, offset: usize) -> Seq<DiagnosticModel> {
    match d {
        DeclarationSpecifier::TypeSpecifier(TypeSpecifier::Complex) => seq![
            named_warning(DiagnosticKind::DeclarationUnsupported, "_Complex type not supported on "@, name, offset),
        ],
        DeclarationSpecifier::TypeSpecifier(TypeSpecifier::TypeOf) => seq![
            named_warning(DiagnosticKind::DeclarationPartial, "typeof not resolved on "@, name, offset),
        ],
        DeclarationSpecifier::Function(FunctionSpecifier::Inline) => seq![
            named_warning(DiagnosticKind::DeclarationPartial, "inline specifier ignored on "@, name, offset),
        ],
        DeclarationSpecifier::Function(FunctionSpecifier::Noreturn) => seq![
            named_warning(DiagnosticKind::DeclarationPartial, "_Noreturn specifier ignored on "@, name, offset),
        ],
        DeclarationSpecifier::Alignment => seq![
            named_warning(DiagnosticKind::DeclarationPartial, "_Alignas specifier ignored on "@, name, offset),
        ],
        DeclarationSpecifier::StorageClass(StorageClass::ThreadLocal) => seq![
            named_warning(DiagnosticKind::DeclarationPartial, "_Thread_local ignored on "@, name, offset),
        ],
        DeclarationSpecifier::StorageClass(StorageClass::Register) => seq![
            named_warning(DiagnosticKind::DeclarationPartial, "register storage class ignored on "@, name, offset),
        ],
        _ => seq![],
    }
}

/// Warnings for specifiers that have no binding form.
pub open spec fn specifier_warnings(ds: Seq<DeclarationSpecifier>, name: Seq<char>, offset: usize) -> Seq<DiagnosticModel>
    decreases ds.len(),
{
    if ds.len() == 0 {
        seq![]
    } else {
        specifier_warnings(ds.drop_last(), name, offset) + specifier_warning(ds.last(), name, offset)
    }
}

/// The warning for a K&R declarator part or a block, if it is one.
pub open spec fn derived_warning(d: DerivedDeclarator, name: Seq<char>, offset: usize) -> Seq<DiagnosticModel> {
    match d {
        DerivedDeclarator::KRFunction => seq![
            named_warning(DiagnosticKind::DeclarationUnsupported, "K&R function declaration on "@, name, offset),
        ],
        DerivedDeclarator::Block => seq![
            named_warning(DiagnosticKind::DeclarationUnsupported, "block pointer not supported on "@, name, offset),
        ],
        _ => seq![],
    }
}

/// Warnings for K&R declarators and blocks.
pub open spec fn derived_warnings(ds: Seq<DerivedDeclarator>, name: Seq<char>, offset: usize) -> Seq<DiagnosticModel>
    decreases ds.len(),
{
    if ds.len() == 0 {
        seq![]
    } else {
        derived_warnings(ds.drop_last(), name, offset) + derived_warning(ds.last(), name, offset)
    }
}

/// The names of the attributes that extraction ignores (calling conventions are used).
pub open spec fn ignored_extensions(es: Seq<Extension>) -> Seq<Seq<char>>
    decreases es.len(),
{
    if es.len() == 0 {
        seq![]
    } else {
        ignored_extensions(es.drop_last()) + match es.last() {
            Extension::Attribute(n) => if convention_named(n@) is Some {
                seq![]
            } else {
                seq![n@]
            },
            Extension::AsmLabel => seq!["asm_label"@],
            Extension::AvailabilityAttribute => seq!["availability"@],
        }
    }
}

/// Names joined with `", "`.
pub open spec fn joined(names: Seq<Seq<char>>) -> Seq<char>
    decreases names.len(),
{
    if names.len() == 0 {
        seq![]
    } else if names.len() == 1 {
        names[0]
    } else {
        joined(names.drop_last()) + ", "@ + names.last()
    }
}

/// One warning listing the ignored attributes, if there are any.
pub open spec fn extension_warnings(es: Seq<Extension>, name: Seq<char>, offset: usize) -> Seq<DiagnosticModel> {
    let names = ignored_extensions(es);
    if names.len() == 0 {
        seq![]
    } else {
        seq![item_warning(DiagnosticKind::DeclarationPartial, "attributes ignored: "@ + joined(names), name, Some(offset))]
    }
}

/// The warnings on a function declarator: attributes, specifiers, derived parts.
pub open spec fn function_warnings(ds: Seq<DeclarationSpecifier>, d: Declarator, name: Seq<char>, offset: usize) -> Seq<DiagnosticModel> {
    extension_warnings(d.extensions@, name, offset) + specifier_warnings(ds, name, offset) + derived_warnings(
        d.derived@,
        name,
        offset,
    )
}

/// Whether some declarator part is a prototype.
pub open spec fn is_function_declarator(d: Declarator) -> bool {
    exists|i: int| 0 <= i < d.derived@.len() && (#[trigger] d.derived@[i]) is Function
}

/// Whether the specifiers hold the storage class `sc`.
pub open spec fn has_storage_class(ds: Seq<DeclarationSpecifier>, sc: StorageClass) -> bool {
    exists|i: int| 0 <= i < ds.len() && #[trigger] ds[i] == DeclarationSpecifier::StorageClass(sc)
}

/// What a typedef declarator yields: the inline definitions of its specifiers, then
/// the alias.
pub open spec fn typedef_output(ds: Seq<DeclarationSpecifier>, d: Declarator, offset: usize) -> Output {
    match declarator_name(d) {
        Some(n) => then(
            inline_definitions(ds, offset),
            (
                seq![ItemModel::TypeAlias { name: n, target: full_type(ds, d), resolved: false, abi_confidence: None, offset: Some(offset) }],
                seq![],
            ),
        ),
        None => nothing(),
    }
}

/// What a function declarator yields: its warnings and the function.
pub open spec fn function_declaration_output(ds: Seq<DeclarationSpecifier>, d: Declarator, offset: usize) -> Output {
    match declarator_name(d) {
        Some(n) => (seq![function_item(ds, d, n, offset)], function_warnings(ds, d, n, offset)),
        None => nothing(),
    }
}

/// What another declarator yields: the inline definitions of its specifiers, then the
/// variable when the declaration is `extern`.
pub open spec fn variable_output(ds: Seq<DeclarationSpecifier>, d: Declarator, is_extern: bool, offset: usize) -> Output {
    then(
        inline_definitions(ds, offset),
        if is_extern {
            match declarator_name(d) {
                Some(n) => (seq![ItemModel::Variable { name: n, ty: full_type(ds, d), offset: Some(offset) }], seq![]),
                None => nothing(),
            }
        } else {
            nothing()
        },
    )
}

/// What one declarator of a declaration yields.
pub open spec fn declarator_output(ds: Seq<DeclarationSpecifier>, d: Declarator, offset: usize) -> Output {
    if has_storage_class(ds, StorageClass::Typedef) {
        typedef_output(ds, d, offset)
    } else if is_function_declarator(d) {
        function_declaration_output(ds, d, offset)
    } else {
        variable_output(ds, d, has_storage_class(ds, StorageClass::Extern), offset)
    }
}

pub open spec fn declarators_output(ds: Seq<DeclarationSpecifier>, decls: Seq<Declarator>, offset: usize) -> Output
    decreases decls.len(),
{
    if decls.len() == 0 {
        nothing()
    } else {
        then(declarators_output(ds, decls.drop_last(), offset), declarator_output(ds, decls.last(), offset))
    }
}

/// What a declaration yields.
pub open spec fn declaration_output(decl: Declaration, offset: usize) -> Output {
    if decl.declarators@.len() == 0 {
        standalone_definitions(decl.specifiers@, offset)
    } else {
        declarators_output(decl.specifiers@, decl.declarators@, offset)
    }
}

/// What a function definition yields: its signature, or a warning for a static one.
pub open spec fn definition_output(f: FunctionDefinition, offset: usize) -> Output {
    match declarator_name(f.declarator) {
        None => nothing(),
        Some(n) => if has_storage_class(f.specifiers@, StorageClass::Static) {
            (
                seq![],
                seq![item_warning(
                    DiagnosticKind::DeclarationUnsupported,
                    "static function '"@ + n + "' not bindable"@,
                    n,
                    Some(offset),
                )],
            )
        } else {
            (
                seq![function_item(f.specifiers@, f.declarator, n, offset)],
                function_warnings(f.specifiers@, f.declarator, n, offset),
            )
        },
    }
}

/// What a top-level declaration yields.
pub open spec fn external_output(e: ExternalDeclaration) -> Output {
    match e {
        ExternalDeclaration::Declaration(d, offset) => declaration_output(d, offset),
        ExternalDeclaration::FunctionDefinition(f, offset) => definition_output(f, offset),
        ExternalDeclaration::StaticAssert(offset) => (
            seq![],
            seq![DiagnosticModel {
                kind: DiagnosticKind::DeclarationPartial,
                severity: Severity::Warning,
                message: "_Static_assert ignored"@,
                location: Some((None, offset)),
                item: None,
                artifact: None,
            }],
        ),
    }
}

/// What a translation unit yields: each top-level declaration's output, in order.
pub open spec fn unit_output(es: Seq<ExternalDeclaration>) -> Output
    decreases es.len(),
{
    if es.len() == 0 {
        nothing()
    } else {
        then(unit_output(es.drop_last()), external_output(es.last()))
    }
}

/// Extraction is compositional: a unit made of two runs of declarations yields what
/// the first run yields, followed by what the second yields.
pub proof fn lemma_unit_output_concat(a: Seq<ExternalDeclaration>, b: Seq<ExternalDeclaration>)
    ensures
        unit_output(a + b) == then(unit_output(a), unit_output(b)),
    decreases b.len(),
{
    if b.len() == 0 {
        assert(a + b =~= a);
        assert(unit_output(a).0 + seq![] =~= unit_output(a).0);
        assert(unit_output(a).1 + seq![] =~= unit_output(a).1);
    } else {
        lemma_unit_output_concat(a, b.drop_last());
        assert((a + b).drop_last() =~= a + b.drop_last());
        assert((a + b).last() == b.last());
        let x = unit_output(a);
        let y = unit_output(b.drop_last());
        let z = external_output(b.last());
        assert(x.0 + y.0 + z.0 =~= x.0 + (y.0 + z.0));
        assert(x.1 + y.1 + z.1 =~= x.1 + (y.1 + z.1));
    }
}

// ---------------------------------------------------------------------------
// Extraction
// ---------------------------------------------------------------------------

/// Extraction state: the items and diagnostics found so far.
pub struct Extractor {
    pub items: Vec<BindingItem>,
    pub diagnostics: Vec<Diagnostic>,
}

/// `after` holds what `before` held, followed by `out`.
pub open spec fn grew(before: Extractor, after: Extractor, out: Output) -> bool {
    &&& item_models(after.items@) == item_models(before.items@) + out.0
    &&& diagnostic_models(after.diagnostics@) == diagnostic_models(before.diagnostics@) + out.1
}

proof fn lemma_grew_then(a: Extractor, b: Extractor, c: Extractor, x: Output, y: Output)
    requires
        grew(a, b, x),
        grew(b, c, y),
    ensures
        grew(a, c, then(x, y)),
{
    assert(item_models(a.items@) + x.0 + y.0 =~= item_models(a.items@) + (x.0 + y.0));
    assert(diagnostic_models(a.diagnostics@) + x.1 + y.1 =~= diagnostic_models(a.diagnostics@) + (x.1 + y.1));
}

proof fn lemma_grew_nothing(a: Extractor)
    ensures
        grew(a, a, nothing()),
{
    assert(item_models(a.items@) + seq![] =~= item_models(a.items@));
    assert(diagnostic_models(a.diagnostics@) + seq![] =~= diagnostic_models(a.diagnostics@));
}

/// A warning about an item, located at `offset` when there is one.
fn item_diagnostic(kind: DiagnosticKind, message: &str, item: &str, offset: Option<usize>) -> (r: Diagnostic)
    ensures
        diagnostic_model(r) == item_warning(kind, message@, item@, offset),
{
    let d = Diagnostic::warning(kind, message).with_item(item);
    match offset {
        Some(o) => d.with_location(None, o),
        None => d,
    }
}

/// `HEAD'NAME'`
fn quoted(head: &str, name: &str) -> (r: String)
    ensures
        r@ == head@ + "'"@ + name@ + "'"@,
{
    let a = join3(head, "'", name);
    join2(a.as_str(), "'")
}

/// The names joined with `", "`.
fn join_names(names: &Vec<String>) -> (r: String)
    ensures
        r@ == joined(strs(names@)),
{
    let mut out = String::new();
    let mut i: usize = 0;
    while i < names.len()
        invariant
            i <= names@.len(),
            out@ == joined(strs(names@.subrange(0, i as int))),
        decreases names@.len() - i,
    {
        let ghost pre = strs(names@.subrange(0, i as int));
        assert(strs(names@.subrange(0, i + 1)) =~= pre.push(names@[i as int]@));
        assert(pre.push(names@[i as int]@).drop_last() =~= pre);
        if i > 0 {
            out.append(", ");
        } else {
            assert(seq![names@[i as int]@][0] == names@[i as int]@);
        }
        out.append(names[i].as_str());
        i = i + 1;
    }
    assert(names@.subrange(0, names@.len() as int) =~= names@);
    out
}

fn has_storage(ds: &[DeclarationSpecifier], sc: StorageClass) -> (r: bool)
    ensures
        r == has_storage_class(ds@, sc),
{
    let mut i: usize = 0;
    while i < ds.len()
        invariant
            i <= ds@.len(),
            forall|k: int| 0 <= k < i ==> ds@[k] != DeclarationSpecifier::StorageClass(sc),
        decreases ds@.len() - i,
    {
        match &ds[i] {
            DeclarationSpecifier::StorageClass(x) => {
                if *x == sc {
                    return true;
                }
            },
            _ => {},
        }
        i = i + 1;
    }
    false
}

fn has_function_part(d: &Declarator) -> (r: bool)
    ensures
        r == is_function_declarator(*d),
{
    let mut i: usize = 0;
    while i < d.derived.len()
        invariant
            i <= d.derived@.len(),
            forall|k: int| 0 <= k < i ==> !(d.derived@[k] is Function),
        decreases d.derived@.len() - i,
    {
        match &d.derived[i] {
            DerivedDeclarator::Function(..) => {
                return true;
            },
            _ => {},
        }
        i = i + 1;
    }
    false
}

/// The type that declaration specifiers spell (see `base_type`).
pub fn resolve_base_type(ds: &[DeclarationSpecifier]) -> (r: BindingType)
    ensures
        type_model(r) == base_type(decl_type_specs(ds@)),
{
    let specs = type_specs_of_declaration(ds);
    resolve_base_type_from_type_specs(specs.as_slice())
}

/// The full type of a declarator under declaration specifiers (see `full_type`).
pub fn resolve_full_type(ds: &[DeclarationSpecifier], d: &Declarator) -> (r: BindingType)
    ensures
        type_model(r) == full_type(ds@, *d),
{
    let base = resolve_base_type(ds);
    let q = qualifiers_from_declaration_specifiers(ds);
    let t = apply_derived_type(base, d);
    apply_base_qualifiers(t, q)
}

/// Return type, parameters and variadicity of a function declarator (see
/// `function_parts`).
pub fn resolve_function_parts(d: &Declarator, base: BindingType) -> (r: (BindingType, Vec<ParameterBinding>, bool))
    ensures
        (type_model(r.0), parameter_models(r.1@), r.2) == function_parts(type_model(base), d.derived@),
{
    let ghost base_model = type_model(base);
    let mut ret = base;
    let mut params: Vec<ParameterBinding> = Vec::new();
    let mut variadic = false;
    let n = d.derived.len();
    let mut i: usize = 0;
    assert(parameter_models(params@) =~= seq![]);
    while i < n
        invariant
            n == d.derived@.len(),
            i <= n,
            (type_model(ret), parameter_models(params@), variadic) == function_parts(base_model, d.derived@.subrange(0, i as int)),
        decreases n - i,
    {
        assert(d.derived@.subrange(0, i + 1).drop_last() =~= d.derived@.subrange(0, i as int));
        assert(d.derived@.subrange(0, i + 1).last() == d.derived@[i as int]);
        match &d.derived[i] {
            DerivedDeclarator::Pointer(_) => {
                ret = BindingType::Pointer { pointee: Box::new(ret), const_pointee: false, qualifiers: empty_qualifiers() };
            },
            DerivedDeclarator::Function(ps, ellipsis) => {
                params = extract_parameters(ps);
                variadic = *ellipsis;
            },
            _ => {},
        }
        i = i + 1;
    }
    assert(d.derived@.subrange(0, n as int) =~= d.derived@);
    (ret, params, variadic)
}

/// The function a declarator declares (see `function_item`).
fn function_binding(ds: &[DeclarationSpecifier], d: &Declarator, name: String, offset: usize) -> (r: BindingItem)
    ensures
        item_model(r) == function_item(ds@, *d, name@, offset),
{
    let convention = match detect_calling_convention(d.extensions.as_slice()) {
        Some(c) => c,
        None => CallingConvention::C,
    };
    let base = resolve_base_type(ds);
    let q = qualifiers_from_declaration_specifiers(ds);
    let (ret, parameters, variadic) = resolve_function_parts(d, base);
    BindingItem::Function(FunctionBinding {
        name,
        calling_convention: convention,
        parameters,
        return_type: apply_base_qualifiers(ret, q),
        variadic,
        source_offset: Some(offset),
    })
}

/// The value of an enum constant's expression.
fn enumerator_value(e: &Option<Expression>) -> (r: Option<i128>)
    ensures
        r == match *e {
            Some(x) => const_value(x),
            None => None,
        },
{
    match e {
        Some(x) => eval_const_expr(x),
        None => None,
    }
}

/// The width of a bit-field, when its constant fits in 64 unsigned bits.
fn bit_width_value(e: &Option<Expression>) -> (r: Option<u64>)
    ensures
        r == bit_width_of(*e),
{
    match e {
        Some(x) => match eval_const_expr(x) {
            Some(v) => if 0 <= v && v <= 0xffff_ffff_ffff_ffff {
                Some(v as u64)
            } else {
                None
            },
            None => None,
        },
        None => None,
    }
}

impl Extractor {
    pub fn new() -> (r: Self)
        ensures
            r.items@.len() == 0,
            r.diagnostics@.len() == 0,
    {
        Extractor { items: Vec::new(), diagnostics: Vec::new() }
    }

    fn push_item(&mut self, it: BindingItem)
        ensures
            grew(*old(self), *final(self), (seq![item_model(it)], seq![])),
    {
        let ghost before = *self;
        self.items.push(it);
        assert(item_models(self.items@) =~= item_models(before.items@) + seq![item_model(it)]);
        assert(diagnostic_models(self.diagnostics@) =~= diagnostic_models(before.diagnostics@) + seq![]);
    }

    fn push_diagnostic(&mut self, d: Diagnostic)
        ensures
            grew(*old(self), *final(self), (seq![], seq![diagnostic_model(d)])),
    {
        let ghost before = *self;
        self.diagnostics.push(d);
        assert(item_models(self.items@) =~= item_models(before.items@) + seq![]);
        assert(diagnostic_models(self.diagnostics@) =~= diagnostic_models(before.diagnostics@) + seq![diagnostic_model(d)]);
    }

    /// The fields of one member declaration, appended to `out`, with their warnings.
    fn extract_struct_fields(&mut self, field: &StructField, out: &mut Vec<FieldBinding>)
        ensures
            field_models(final(out)@) == field_models(old(out)@) + declaration_fields(*field).0,
            grew(*old(self), *final(self), (seq![], declaration_fields(*field).1)),
    {
        let specs = type_specs_of_member(field.specifiers.as_slice());
        if field.declarators.len() == 0 {
            let ty = resolve_base_type_from_type_specs(specs.as_slice());
            let ghost before = out@;
            out.push(FieldBinding { name: None, ty, bit_width: None, layout: None });
            assert(field_models(out@) =~= field_models(before) + declaration_fields(*field).0);
            proof {
                lemma_grew_nothing(*self);
            }
            return;
        }
        let q = qualifiers_from_specifier_qualifiers(field.specifiers.as_slice());
        let ghost sq = field.specifiers@;
        let ghost fields0 = out@;
        let ghost start = *self;
        let n = field.declarators.len();
        let mut i: usize = 0;
        proof {
            lemma_grew_nothing(*self);
            assert(field_models(fields0) + seq![] =~= field_models(fields0));
        }
        while i < n
            invariant
                n == field.declarators@.len(),
                i <= n,
                sq == field.specifiers@,
                q == qualifiers_of(member_qualifier_list(sq)),
                deref_specs(specs@) == member_type_specs(sq),
                field_models(out@) == field_models(fields0) + member_fields(sq, field.declarators@.subrange(0, i as int)).0,
                grew(start, *self, (seq![], member_fields(sq, field.declarators@.subrange(0, i as int)).1)),
            decreases n - i,
        {
            let ghost pre = field.declarators@.subrange(0, i as int);
            assert(field.declarators@.subrange(0, i + 1).drop_last() =~= pre);
            assert(field.declarators@.subrange(0, i + 1).last() == field.declarators@[i as int]);
            let sd = &field.declarators[i];
            let name = match &sd.declarator {
                Some(d) => declarator_name_exec(d),
                None => None,
            };
            let bit_width = bit_width_value(&sd.bit_width);
            let ghost mid = *self;
            if sd.bit_width.is_some() {
                let shown = match &name {
                    Some(n) => n.clone(),
                    None => "<anonymous>".to_owned(),
                };
                let message = quoted("bitfield layout partially represented on field ", shown.as_str());
                assert(message@ == "bitfield layout partially represented on field '"@ + shown@ + "'"@) by {
                    assert("bitfield layout partially represented on field "@ + "'"@ =~= "bitfield layout partially represented on field '"@) by {
                        reveal_strlit("bitfield layout partially represented on field ");
                        reveal_strlit("'");
                        reveal_strlit("bitfield layout partially represented on field '");
                    }
                }
                self.push_diagnostic(item_diagnostic(DiagnosticKind::DeclarationPartial, message.as_str(), shown.as_str(), None));
            } else {
                proof {
                    lemma_grew_nothing(*self);
                }
            }
            let base = resolve_base_type_from_type_specs(specs.as_slice());
            let t = match &sd.declarator {
                Some(d) => apply_derived_type(base, d),
                None => base,
            };
            let ty = apply_base_qualifiers(t, q);
            let ghost before = out@;
            out.push(FieldBinding { name, ty, bit_width, layout: None });
            proof {
                let last = member_field(sq, field.declarators@[i as int]);
                assert(field_model(out@.last()) == last.0);
                assert(field_models(out@) =~= field_models(before).push(last.0));
                lemma_grew_then(start, mid, *self, (seq![], member_fields(sq, pre).1), (seq![], last.1));
                assert(seq![] + seq![] =~= Seq::<ItemModel>::empty());
            }
            i = i + 1;
        }
        assert(field.declarators@.subrange(0, n as int) =~= field.declarators@);
    }

    /// A record definition or reference: its fields' warnings, then its item.
    pub fn extract_record(&mut self, st: &StructType, offset: usize)
        ensures
            grew(*old(self), *final(self), record_output(*st, offset)),
    {
        let ghost start = *self;
        let ghost st_view = *st;
        let kind = if st.is_union {
            RecordKind::Union
        } else {
            RecordKind::Struct
        };
        let fields = match &st.declarations {
            Some(decls) => {
                let mut fields: Vec<FieldBinding> = Vec::new();
                let mut i: usize = 0;
                proof {
                    lemma_grew_nothing(*self);
                    assert(field_models(fields@) =~= seq![]);
                }
                while i < decls.len()
                    invariant
                        i <= decls@.len(),
                        field_models(fields@) == body_fields(decls@.subrange(0, i as int)).0,
                        grew(start, *self, (seq![], body_fields(decls@.subrange(0, i as int)).1)),
                    decreases decls@.len() - i,
                {
                    let ghost pre = decls@.subrange(0, i as int);
                    assert(decls@.subrange(0, i + 1).drop_last() =~= pre);
                    assert(decls@.subrange(0, i + 1).last() == decls@[i as int]);
                    let ghost mid = *self;
                    self.extract_struct_fields(&decls[i], &mut fields);
                    proof {
                        lemma_grew_then(start, mid, *self, (seq![], body_fields(pre).1), (seq![], declaration_fields(decls@[i as int]).1));
                        assert(seq![] + seq![] =~= Seq::<ItemModel>::empty());
                    }
                    i = i + 1;
                }
                assert(decls@.subrange(0, decls@.len() as int) =~= decls@);
                Some(fields)
            },
            None => {
                proof {
                    lemma_grew_nothing(*self);
                }
                None
            },
        };
        let ghost mid = *self;
        let name = crate::text::clone_opt(&st.identifier);
        self.push_item(BindingItem::Record(RecordBinding {
            kind,
            name,
            fields,
            representation: None,
            abi_confidence: None,
            source_offset: Some(offset),
        }));
        proof {
            let body = match st_view.declarations {
                Some(fs) => body_fields(fs@).1,
                None => Seq::<DiagnosticModel>::empty(),
            };
            lemma_grew_then(start, mid, *self, (seq![], body), (record_output(*st, offset).0, seq![]));
            assert(seq![] + record_output(*st, offset).0 =~= record_output(*st, offset).0);
            assert(body + seq![] =~= body);
        }
    }

    /// An enum, with the values of its constants.
    pub fn extract_enum(&mut self, et: &EnumType, offset: usize)
        ensures
            grew(*old(self), *final(self), (seq![enum_item(*et, offset)], seq![])),
    {
        let mut variants: Vec<EnumVariant> = Vec::new();
        let mut i: usize = 0;
        while i < et.enumerators.len()
            invariant
                i <= et.enumerators@.len(),
                variants@.len() == i,
                forall|k: int| 0 <= k < i ==> (#[trigger] variants@[k]).name@ == et.enumerators@[k].identifier@
                    && variants@[k].value == match et.enumerators@[k].expression {
                        Some(x) => const_value(x),
                        None => None,
                    },
            decreases et.enumerators@.len() - i,
        {
            let e = &et.enumerators[i];
            variants.push(EnumVariant { name: e.identifier.clone(), value: enumerator_value(&e.expression) });
            i = i + 1;
        }
        let name = crate::text::clone_opt(&et.identifier);
        let it = BindingItem::Enum(EnumBinding {
            name,
            variants,
            representation: None,
            abi_confidence: None,
            source_offset: Some(offset),
        });
        assert(item_model(it) == enum_item(*et, offset)) by {
            let a = variants@.map_values(|v: EnumVariant| (v.name@, v.value));
            let b = et.enumerators@.map_values(
                |e: Enumerator|
                    (
                        e.identifier@,
                        match e.expression {
                            Some(x) => const_value(x),
                            None => None,
                        },
                    ),
            );
            assert(a =~= b);
        }
        self.push_item(it);
    }

    /// Record definitions with a body and enums with constants among specifiers.
    fn extract_inline_type_definitions(&mut self, ds: &[DeclarationSpecifier], offset: usize)
        ensures
            grew(*old(self), *final(self), inline_definitions(ds@, offset)),
    {
        let ghost start = *self;
        let mut i: usize = 0;
        proof {
            lemma_grew_nothing(*self);
        }
        while i < ds.len()
            invariant
                i <= ds@.len(),
                grew(start, *self, inline_definitions(ds@.subrange(0, i as int), offset)),
            decreases ds@.len() - i,
        {
            let ghost pre = ds@.subrange(0, i as int);
            assert(ds@.subrange(0, i + 1).drop_last() =~= pre);
            assert(ds@.subrange(0, i + 1).last() == ds@[i as int]);
            let ghost mid = *self;
            match &ds[i] {
                DeclarationSpecifier::TypeSpecifier(TypeSpecifier::Struct(st)) => {
                    if st.declarations.is_some() {
                        self.extract_record(st, offset);
                    } else {
                        proof {
                            lemma_grew_nothing(*self);
                        }
                    }
                },
                DeclarationSpecifier::TypeSpecifier(TypeSpecifier::Enum(et)) => {
                    if et.enumerators.len() > 0 {
                        self.extract_enum(et, offset);
                    } else {
                        proof {
                            lemma_grew_nothing(*self);
                        }
                    }
                },
                _ => {
                    proof {
                        lemma_grew_nothing(*self);
                    }
                },
            }
            proof {
                let step = match ds@[i as int] {
                    DeclarationSpecifier::TypeSpecifier(TypeSpecifier::Struct(st)) => if st.declarations is Some {
                        record_output(st, offset)
                    } else {
                        nothing()
                    },
                    DeclarationSpecifier::TypeSpecifier(TypeSpecifier::Enum(et)) => if et.enumerators@.len() > 0 {
                        (seq![enum_item(et, offset)], seq![])
                    } else {
                        nothing()
                    },
                    _ => nothing(),
                };
                lemma_grew_then(start, mid, *self, inline_definitions(pre, offset), step);
            }
            i = i + 1;
        }
        assert(ds@.subrange(0, ds@.len() as int) =~= ds@);
    }

    /// Every record and enum specifier of a declaration without declarators.
    fn extract_standalone_type_specifiers(&mut self, ds: &[DeclarationSpecifier], offset: usize)
        ensures
            grew(*old(self), *final(self), standalone_definitions(ds@, offset)),
    {
        let ghost start = *self;
        let mut i: usize = 0;
        proof {
            lemma_grew_nothing(*self);
        }
        while i < ds.len()
            invariant
                i <= ds@.len(),
                grew(start, *self, standalone_definitions(ds@.subrange(0, i as int), offset)),
            decreases ds@.len() - i,
        {
            let ghost pre = ds@.subrange(0, i as int);
            assert(ds@.subrange(0, i + 1).drop_last() =~= pre);
            assert(ds@.subrange(0, i + 1).last() == ds@[i as int]);
            let ghost mid = *self;
            match &ds[i] {
                DeclarationSpecifier::TypeSpecifier(TypeSpecifier::Struct(st)) => {
                    self.extract_record(st, offset);
                },
                DeclarationSpecifier::TypeSpecifier(TypeSpecifier::Enum(et)) => {
                    self.extract_enum(et, offset);
                },
                _ => {
                    proof {
                        lemma_grew_nothing(*self);
                    }
                },
            }
            proof {
                let step = match ds@[i as int] {
                    DeclarationSpecifier::TypeSpecifier(TypeSpecifier::Struct(st)) => record_output(st, offset),
                    DeclarationSpecifier::TypeSpecifier(TypeSpecifier::Enum(et)) => (seq![enum_item(et, offset)], seq![]),
                    _ => nothing(),
                };
                lemma_grew_then(start, mid, *self, standalone_definitions(pre, offset), step);
            }
            i = i + 1;
        }
        assert(ds@.subrange(0, ds@.len() as int) =~= ds@);
    }
}

impl Extractor {
    fn warn_named(&mut self, kind: DiagnosticKind, head: &str, name: &str, offset: usize)
        ensures
            grew(*old(self), *final(self), (seq![], seq![named_warning(kind, head@, name@, offset)])),
    {
        let message = quoted(head, name);
        self.push_diagnostic(item_diagnostic(kind, message.as_str(), name, Some(offset)));
    }

    /// Warnings for specifiers that have no binding form.
    fn emit_specifier_diagnostics(&mut self, ds: &[DeclarationSpecifier], name: &str, offset: usize)
        ensures
            grew(*old(self), *final(self), (seq![], specifier_warnings(ds@, name@, offset))),
    {
        let ghost start = *self;
        let mut i: usize = 0;
        proof {
            lemma_grew_nothing(*self);
        }
        while i < ds.len()
            invariant
                i <= ds@.len(),
                grew(start, *self, (seq![], specifier_warnings(ds@.subrange(0, i as int), name@, offset))),
            decreases ds@.len() - i,
        {
            let ghost pre = ds@.subrange(0, i as int);
            assert(ds@.subrange(0, i + 1).drop_last() =~= pre);
            assert(ds@.subrange(0, i + 1).last() == ds@[i as int]);
            let ghost mid = *self;
            match &ds[i] {
                DeclarationSpecifier::TypeSpecifier(TypeSpecifier::Complex) => {
                    self.warn_named(DiagnosticKind::DeclarationUnsupported, "_Complex type not supported on ", name, offset);
                },
                DeclarationSpecifier::TypeSpecifier(TypeSpecifier::TypeOf) => {
                    self.warn_named(DiagnosticKind::DeclarationPartial, "typeof not resolved on ", name, offset);
                },
                DeclarationSpecifier::Function(FunctionSpecifier::Inline) => {
                    self.warn_named(DiagnosticKind::DeclarationPartial, "inline specifier ignored on ", name, offset);
                },
                DeclarationSpecifier::Function(FunctionSpecifier::Noreturn) => {
                    self.warn_named(DiagnosticKind::DeclarationPartial, "_Noreturn specifier ignored on ", name, offset);
                },
                DeclarationSpecifier::Alignment => {
                    self.warn_named(DiagnosticKind::DeclarationPartial, "_Alignas specifier ignored on ", name, offset);
                },
                DeclarationSpecifier::StorageClass(StorageClass::ThreadLocal) => {
                    self.warn_named(DiagnosticKind::DeclarationPartial, "_Thread_local ignored on ", name, offset);
                },
                DeclarationSpecifier::StorageClass(StorageClass::Register) => {
                    self.warn_named(DiagnosticKind::DeclarationPartial, "register storage class ignored on ", name, offset);
                },
                _ => {
                    proof {
                        lemma_grew_nothing(*self);
                    }
                },
            }
            proof {
                let step = specifier_warning(ds@[i as int], name@, offset);
                lemma_grew_then(start, mid, *self, (seq![], specifier_warnings(pre, name@, offset)), (seq![], step));
                assert(seq![] + seq![] =~= Seq::<ItemModel>::empty());
            }
            i = i + 1;
        }
        assert(ds@.subrange(0, ds@.len() as int) =~= ds@);
    }

    /// Warnings for K&R declarators and blocks.
    fn emit_derived_diagnostics(&mut self, d: &Declarator, name: &str, offset: usize)
        ensures
            grew(*old(self), *final(self), (seq![], derived_warnings(d.derived@, name@, offset))),
    {
        let ghost start = *self;
        let mut i: usize = 0;
        proof {
            lemma_grew_nothing(*self);
        }
        while i < d.derived.len()
            invariant
                i <= d.derived@.len(),
                grew(start, *self, (seq![], derived_warnings(d.derived@.subrange(0, i as int), name@, offset))),
            decreases d.derived@.len() - i,
        {
            let ghost pre = d.derived@.subrange(0, i as int);
            assert(d.derived@.subrange(0, i + 1).drop_last() =~= pre);
            assert(d.derived@.subrange(0, i + 1).last() == d.derived@[i as int]);
            let ghost mid = *self;
            match &d.derived[i] {
                DerivedDeclarator::KRFunction => {
                    self.warn_named(DiagnosticKind::DeclarationUnsupported, "K&R function declaration on ", name, offset);
                },
                DerivedDeclarator::Block => {
                    self.warn_named(DiagnosticKind::DeclarationUnsupported, "block pointer not supported on ", name, offset);
                },
                _ => {
                    proof {
                        lemma_grew_nothing(*self);
                    }
                },
            }
            proof {
                let step = derived_warning(d.derived@[i as int], name@, offset);
                lemma_grew_then(start, mid, *self, (seq![], derived_warnings(pre, name@, offset)), (seq![], step));
                assert(seq![] + seq![] =~= Seq::<ItemModel>::empty());
            }
            i = i + 1;
        }
        assert(d.derived@.subrange(0, d.derived@.len() as int) =~= d.derived@);
    }

    /// One warning listing the attributes that extraction ignores.
    fn emit_extension_diagnostics(&mut self, es: &[Extension], name: &str, offset: usize)
        ensures
            grew(*old(self), *final(self), (seq![], extension_warnings(es@, name@, offset))),
    {
        let mut names: Vec<String> = Vec::new();
        let mut i: usize = 0;
        while i < es.len()
            invariant
                i <= es@.len(),
                strs(names@) == ignored_extensions(es@.subrange(0, i as int)),
            decreases es@.len() - i,
        {
            let ghost pre = es@.subrange(0, i as int);
            assert(es@.subrange(0, i + 1).drop_last() =~= pre);
            assert(es@.subrange(0, i + 1).last() == es@[i as int]);
            let ghost before = names@;
            match &es[i] {
                Extension::Attribute(n) => {
                    if calling_convention_from_attr_name(n.as_str()).is_none() {
                        names.push(n.clone());
                        assert(strs(names@) =~= strs(before) + seq![n@]);
                    } else {
                        assert(strs(names@) =~= strs(before) + seq![]);
                    }
                },
                Extension::AsmLabel => {
                    names.push("asm_label".to_owned());
                    assert(strs(names@) =~= strs(before) + seq!["asm_label"@]);
                },
                Extension::AvailabilityAttribute => {
                    names.push("availability".to_owned());
                    assert(strs(names@) =~= strs(before) + seq!["availability"@]);
                },
            }
            i = i + 1;
        }
        assert(es@.subrange(0, es@.len() as int) =~= es@);
        if names.len() == 0 {
            proof {
                lemma_grew_nothing(*self);
                assert(nothing() == (Seq::<ItemModel>::empty(), extension_warnings(es@, name@, offset)));
            }
            return;
        }
        let list = join_names(&names);
        let message = join2("attributes ignored: ", list.as_str());
        self.push_diagnostic(item_diagnostic(DiagnosticKind::DeclarationPartial, message.as_str(), name, Some(offset)));
    }

    /// The warnings on a function declarator: attributes, specifiers, derived parts.
    fn emit_function_diagnostics(&mut self, ds: &[DeclarationSpecifier], d: &Declarator, name: &str, offset: usize)
        ensures
            grew(*old(self), *final(self), (seq![], function_warnings(ds@, *d, name@, offset))),
    {
        let ghost s0 = *self;
        self.emit_extension_diagnostics(d.extensions.as_slice(), name, offset);
        let ghost s1 = *self;
        self.emit_specifier_diagnostics(ds, name, offset);
        let ghost s2 = *self;
        self.emit_derived_diagnostics(d, name, offset);
        proof {
            let e = extension_warnings(d.extensions@, name@, offset);
            let sp = specifier_warnings(ds@, name@, offset);
            let dv = derived_warnings(d.derived@, name@, offset);
            lemma_grew_then(s0, s1, s2, (seq![], e), (seq![], sp));
            lemma_grew_then(s0, s2, *self, (seq![], e + sp), (seq![], dv));
            assert(seq![] + seq![] =~= Seq::<ItemModel>::empty());
        }
    }

    /// A typedef: the inline definitions of its specifiers, then the alias.
    fn extract_typedef(&mut self, ds: &[DeclarationSpecifier], d: &Declarator, offset: usize)
        ensures
            grew(*old(self), *final(self), typedef_output(ds@, *d, offset)),
    {
        let ghost s0 = *self;
        match declarator_name_exec(d) {
            Some(name) => {
                self.extract_inline_type_definitions(ds, offset);
                let ghost s1 = *self;
                let target = resolve_full_type(ds, d);
                let it = BindingItem::TypeAlias(TypeAliasBinding {
                    name,
                    target,
                    canonical_resolution: None,
                    abi_confidence: None,
                    source_offset: Some(offset),
                });
                self.push_item(it);
                proof {
                    lemma_grew_then(s0, s1, *self, inline_definitions(ds@, offset), (seq![item_model(it)], seq![]));
                }
            },
            None => {
                proof {
                    lemma_grew_nothing(*self);
                }
            },
        }
    }

    /// A function declaration: its warnings, then the function.
    fn extract_function_declaration(&mut self, ds: &[DeclarationSpecifier], d: &Declarator, offset: usize)
        ensures
            grew(*old(self), *final(self), function_declaration_output(ds@, *d, offset)),
    {
        let ghost s0 = *self;
        match declarator_name_exec(d) {
            Some(name) => {
                self.emit_function_diagnostics(ds, d, name.as_str(), offset);
                let ghost s1 = *self;
                let it = function_binding(ds, d, name, offset);
                self.push_item(it);
                proof {
                    let w = function_warnings(ds@, *d, declarator_name(*d)->0, offset);
                    lemma_grew_then(s0, s1, *self, (seq![], w), (seq![item_model(it)], seq![]));
                    assert(seq![] + seq![item_model(it)] =~= seq![item_model(it)]);
                    assert(w + seq![] =~= w);
                }
            },
            None => {
                proof {
                    lemma_grew_nothing(*self);
                }
            },
        }
    }

    /// Another declarator: the inline definitions of its specifiers, then the variable
    /// when the declaration is `extern`.
    fn extract_variable_or_type(&mut self, ds: &[DeclarationSpecifier], d: &Declarator, is_extern: bool, offset: usize)
        ensures
            grew(*old(self), *final(self), variable_output(ds@, *d, is_extern, offset)),
    {
        let ghost s0 = *self;
        self.extract_inline_type_definitions(ds, offset);
        let ghost s1 = *self;
        let name = if is_extern {
            declarator_name_exec(d)
        } else {
            None
        };
        match name {
            Some(name) => {
                let ty = resolve_full_type(ds, d);
                let it = BindingItem::Variable(VariableBinding { name, ty, source_offset: Some(offset) });
                self.push_item(it);
                proof {
                    lemma_grew_then(s0, s1, *self, inline_definitions(ds@, offset), (seq![item_model(it)], seq![]));
                }
            },
            None => {
                proof {
                    lemma_grew_nothing(*self);
                    lemma_grew_then(s0, s1, *self, inline_definitions(ds@, offset), nothing());
                }
            },
        }
    }

    /// What a declaration yields (see `declaration_output`).
    fn extract_declaration(&mut self, decl: &Declaration, offset: usize)
        ensures
            grew(*old(self), *final(self), declaration_output(*decl, offset)),
    {
        if decl.declarators.len() == 0 {
            self.extract_standalone_type_specifiers(decl.specifiers.as_slice(), offset);
            return;
        }
        let ghost start = *self;
        let ghost ds = decl.specifiers@;
        let is_typedef = has_storage(decl.specifiers.as_slice(), StorageClass::Typedef);
        let is_extern = has_storage(decl.specifiers.as_slice(), StorageClass::Extern);
        let mut i: usize = 0;
        proof {
            lemma_grew_nothing(*self);
        }
        while i < decl.declarators.len()
            invariant
                i <= decl.declarators@.len(),
                ds == decl.specifiers@,
                is_typedef == has_storage_class(ds, StorageClass::Typedef),
                is_extern == has_storage_class(ds, StorageClass::Extern),
                grew(start, *self, declarators_output(ds, decl.declarators@.subrange(0, i as int), offset)),
            decreases decl.declarators@.len() - i,
        {
            let ghost pre = decl.declarators@.subrange(0, i as int);
            assert(decl.declarators@.subrange(0, i + 1).drop_last() =~= pre);
            assert(decl.declarators@.subrange(0, i + 1).last() == decl.declarators@[i as int]);
            let ghost mid = *self;
            let d = &decl.declarators[i];
            if is_typedef {
                self.extract_typedef(decl.specifiers.as_slice(), d, offset);
            } else if has_function_part(d) {
                self.extract_function_declaration(decl.specifiers.as_slice(), d, offset);
            } else {
                self.extract_variable_or_type(decl.specifiers.as_slice(), d, is_extern, offset);
            }
            proof {
                lemma_grew_then(start, mid, *self, declarators_output(ds, pre, offset), declarator_output(ds, decl.declarators@[i as int], offset));
            }
            i = i + 1;
        }
        assert(decl.declarators@.subrange(0, decl.declarators@.len() as int) =~= decl.declarators@);
    }

    /// What a function definition yields (see `definition_output`).
    fn extract_function_definition(&mut self, f: &FunctionDefinition, offset: usize)
        ensures
            grew(*old(self), *final(self), definition_output(*f, offset)),
    {
        let ghost s0 = *self;
        let name = match declarator_name_exec(&f.declarator) {
            Some(n) => n,
            None => {
                proof {
                    lemma_grew_nothing(*self);
                }
                return;
            },
        };
        let ds = f.specifiers.as_slice();
        if has_storage(ds, StorageClass::Static) {
            let message = join3("static function '", name.as_str(), "' not bindable");
            self.push_diagnostic(item_diagnostic(DiagnosticKind::DeclarationUnsupported, message.as_str(), name.as_str(), Some(offset)));
            return;
        }
        self.emit_function_diagnostics(ds, &f.declarator, name.as_str(), offset);
        let ghost s1 = *self;
        let it = function_binding(ds, &f.declarator, name, offset);
        self.push_item(it);
        proof {
            let w = function_warnings(f.specifiers@, f.declarator, declarator_name(f.declarator)->0, offset);
            lemma_grew_then(s0, s1, *self, (seq![], w), (seq![item_model(it)], seq![]));
            assert(seq![] + seq![item_model(it)] =~= seq![item_model(it)]);
            assert(w + seq![] =~= w);
        }
    }

    /// What a top-level declaration yields (see `external_output`).
    fn extract_external_declaration(&mut self, e: &ExternalDeclaration)
        ensures
            grew(*old(self), *final(self), external_output(*e)),
    {
        match e {
            ExternalDeclaration::Declaration(d, offset) => self.extract_declaration(d, *offset),
            ExternalDeclaration::FunctionDefinition(f, offset) => self.extract_function_definition(f, *offset),
            ExternalDeclaration::StaticAssert(offset) => {
                let d = Diagnostic::warning(DiagnosticKind::DeclarationPartial, "_Static_assert ignored").with_location(None, *offset);
                self.push_diagnostic(d);
            },
        }
    }

    /// The items and diagnostics of a translation unit, after those found so far.
    pub fn extract(self, unit: &TranslationUnit) -> (r: (Vec<BindingItem>, Vec<Diagnostic>))
        ensures
            item_models(r.0@) == item_models(self.items@) + unit_output(unit.declarations@).0,
            diagnostic_models(r.1@) == diagnostic_models(self.diagnostics@) + unit_output(unit.declarations@).1,
    {
        let ghost start = self;
        let mut this = self;
        let es = &unit.declarations;
        let mut i: usize = 0;
        proof {
            lemma_grew_nothing(this);
        }
        while i < es.len()
            invariant
                i <= es@.len(),
                grew(start, this, unit_output(es@.subrange(0, i as int))),
            decreases es@.len() - i,
        {
            let ghost pre = es@.subrange(0, i as int);
            assert(es@.subrange(0, i + 1).drop_last() =~= pre);
            assert(es@.subrange(0, i + 1).last() == es@[i as int]);
            let ghost mid = this;
            this.extract_external_declaration(&es[i]);
            proof {
                lemma_grew_then(start, mid, this, unit_output(pre), external_output(es@[i as int]));
            }
            i = i + 1;
        }
        assert(es@.subrange(0, es@.len() as int) =~= es@);
        (this.items, this.diagnostics)
    }
}

/// The package of a parsed translation unit: new metadata, the given source path, and
/// the unit's items and diagnostics.
pub fn extract_from_translation_unit(unit: &TranslationUnit, source_path: Option<String>) -> (r: BindingPackage)
    ensures
        has_new_metadata(r),
        r.source_path == source_path,
        item_models(r.items@) == unit_output(unit.declarations@).0,
        diagnostic_models(r.diagnostics@) == unit_output(unit.declarations@).1,
{
    let extractor = Extractor::new();
    proof {
        assert(item_models(extractor.items@) =~= seq![]);
        assert(diagnostic_models(extractor.diagnostics@) =~= seq![]);
    }
    let (items, diagnostics) = extractor.extract(unit);
    proof {
        assert(seq![] + unit_output(unit.declarations@).0 =~= unit_output(unit.declarations@).0);
        assert(seq![] + unit_output(unit.declarations@).1 =~= unit_output(unit.declarations@).1);
    }
    let mut package = BindingPackage::new();
    package.source_path = source_path;
    package.items = items;
    package.diagnostics = diagnostics;
    package
}

} // verus!
