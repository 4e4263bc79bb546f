use linc::c_ast::{
    BinaryOperator, Declaration, DeclarationSpecifier, Declarator, DeclaratorKind,
    DerivedDeclarator, EnumType, Enumerator, Expression, Extension, ExternalDeclaration,
    FunctionDefinition, FunctionSpecifier, IntegerBase, ParameterDeclaration, SpecifierQualifier,
    StorageClass, StructDeclarator, StructField, StructType, TranslationUnit, TypeQualifier,
    TypeSpecifier, UnaryOperator,
};
use linc::diagnostics::DiagnosticKind;
use linc::extract::{calling_convention_from_attr_name, eval_const_expr, extract_from_translation_unit};
use linc::ir::{BindingItem, BindingPackage, BindingType, CallingConvention, RecordKind, TypeQualifiers};

// --- building the syntax of small C declarations ---

fn ty(t: TypeSpecifier) -> DeclarationSpecifier {
    DeclarationSpecifier::TypeSpecifier(t)
}

fn storage(s: StorageClass) -> DeclarationSpecifier {
    DeclarationSpecifier::StorageClass(s)
}

fn qualifier(q: TypeQualifier) -> DeclarationSpecifier {
    DeclarationSpecifier::TypeQualifier(q)
}

fn named(name: &str) -> Declarator {
    Declarator { kind: DeclaratorKind::Identifier(name.into()), derived: Vec::new(), extensions: Vec::new() }
}

fn derived(mut d: Declarator, parts: Vec<DerivedDeclarator>) -> Declarator {
    d.derived = parts;
    d
}

fn pointer() -> DerivedDeclarator {
    DerivedDeclarator::Pointer(Vec::new())
}

fn prototype(params: Vec<ParameterDeclaration>, ellipsis: bool) -> DerivedDeclarator {
    DerivedDeclarator::Function(params, ellipsis)
}

fn param(specifiers: Vec<DeclarationSpecifier>, declarator: Option<Declarator>) -> ParameterDeclaration {
    ParameterDeclaration { specifiers, declarator }
}

fn void_params() -> Vec<ParameterDeclaration> {
    vec![param(vec![ty(TypeSpecifier::Void)], None)]
}

/// `NAME(void)`
fn no_arg_function(name: &str) -> Declarator {
    derived(named(name), vec![prototype(void_params(), false)])
}

fn declaration(specifiers: Vec<DeclarationSpecifier>, declarators: Vec<Declarator>) -> ExternalDeclaration {
    ExternalDeclaration::Declaration(Declaration { specifiers, declarators }, 0)
}

fn definition(specifiers: Vec<DeclarationSpecifier>, declarator: Declarator) -> ExternalDeclaration {
    ExternalDeclaration::FunctionDefinition(FunctionDefinition { specifiers, declarator }, 0)
}

fn number(n: i64) -> Expression {
    Expression::Integer { base: IntegerBase::Decimal, number: n.to_string() }
}

fn binary(op: BinaryOperator, l: Expression, r: Expression) -> Expression {
    Expression::Binary(op, Box::new(l), Box::new(r))
}

fn member(specifiers: Vec<TypeSpecifier>, name: &str, bit_width: Option<i64>) -> StructField {
    StructField {
        specifiers: specifiers.into_iter().map(SpecifierQualifier::TypeSpecifier).collect(),
        declarators: vec![StructDeclarator { declarator: Some(named(name)), bit_width: bit_width.map(number) }],
    }
}

fn record(is_union: bool, name: &str, fields: Option<Vec<StructField>>) -> TypeSpecifier {
    TypeSpecifier::Struct(StructType { is_union, identifier: Some(name.into()), declarations: fields })
}

fn enumeration(name: &str, constants: Vec<(&str, Option<Expression>)>) -> ExternalDeclaration {
    let enumerators = constants
        .into_iter()
        .map(|(n, e)| Enumerator { identifier: n.into(), expression: e })
        .collect();
    declaration(vec![ty(TypeSpecifier::Enum(EnumType { identifier: Some(name.into()), enumerators }))], Vec::new())
}

fn extract(declarations: Vec<ExternalDeclaration>) -> BindingPackage {
    extract_from_translation_unit(&TranslationUnit { declarations }, None)
}

fn enum_values(pkg: &BindingPackage) -> Vec<Option<i128>> {
    let e = pkg
        .items
        .iter()
        .find_map(|i| match i {
            BindingItem::Enum(e) => Some(e),
            _ => None,
        })
        .unwrap();
    e.variants.iter().map(|v| v.value).collect()
}

fn const_char_ptr_param(name: &str) -> ParameterDeclaration {
    param(
        vec![qualifier(TypeQualifier::Const), ty(TypeSpecifier::Char)],
        Some(derived(named(name), vec![pointer()])),
    )
}

// --- the declarations ---

#[test]
fn extract_typedef_int() {
    // typedef int my_int;
    let pkg = extract(vec![declaration(vec![storage(StorageClass::Typedef), ty(TypeSpecifier::Int)], vec![named("my_int")])]);
    assert_eq!(pkg.items.len(), 1);
    match &pkg.items[0] {
        BindingItem::TypeAlias(ta) => {
            assert_eq!(ta.name, "my_int");
            assert_eq!(ta.target, BindingType::Int);
        }
        other => panic!("expected TypeAlias, got {:?}", other),
    }
}

#[test]
fn extract_typedef_pointer() {
    // typedef void *handle_t;
    let pkg = extract(vec![declaration(
        vec![storage(StorageClass::Typedef), ty(TypeSpecifier::Void)],
        vec![derived(named("handle_t"), vec![pointer()])],
    )]);
    assert_eq!(pkg.items.len(), 1);
    match &pkg.items[0] {
        BindingItem::TypeAlias(ta) => {
            assert_eq!(ta.name, "handle_t");
            assert_eq!(ta.target, BindingType::ptr(BindingType::Void));
        }
        other => panic!("expected TypeAlias, got {:?}", other),
    }
}

#[test]
fn extract_typedef_unsigned_long() {
    // typedef unsigned long size_t;
    let pkg = extract(vec![declaration(
        vec![storage(StorageClass::Typedef), ty(TypeSpecifier::Unsigned), ty(TypeSpecifier::Long)],
        vec![named("size_t")],
    )]);
    match &pkg.items[0] {
        BindingItem::TypeAlias(ta) => {
            assert_eq!(ta.name, "size_t");
            assert_eq!(ta.target, BindingType::ULong);
        }
        other => panic!("expected TypeAlias, got {:?}", other),
    }
}

#[test]
fn extract_extern_function() {
    // extern int puts(const char *s);
    let pkg = extract(vec![declaration(
        vec![storage(StorageClass::Extern), ty(TypeSpecifier::Int)],
        vec![derived(named("puts"), vec![prototype(vec![const_char_ptr_param("s")], false)])],
    )]);
    assert_eq!(pkg.items.len(), 1);
    match &pkg.items[0] {
        BindingItem::Function(f) => {
            assert_eq!(f.name, "puts");
            assert_eq!(f.return_type, BindingType::Int);
            assert!(!f.variadic);
            assert_eq!(f.parameters.len(), 1);
            assert_eq!(f.parameters[0].name.as_deref(), Some("s"));
            assert_eq!(f.parameters[0].ty, BindingType::const_ptr(BindingType::Char));
        }
        other => panic!("expected Function, got {:?}", other),
    }
}

#[test]
fn extract_variadic_function() {
    // int printf(const char *fmt, ...);
    let pkg = extract(vec![declaration(
        vec![ty(TypeSpecifier::Int)],
        vec![derived(named("printf"), vec![prototype(vec![const_char_ptr_param("fmt")], true)])],
    )]);
    match &pkg.items[0] {
        BindingItem::Function(f) => {
            assert_eq!(f.name, "printf");
            assert!(f.variadic);
            assert_eq!(f.parameters.len(), 1);
        }
        other => panic!("expected Function, got {:?}", other),
    }
}

#[test]
fn extract_void_function() {
    // void abort(void);
    let pkg = extract(vec![declaration(vec![ty(TypeSpecifier::Void)], vec![no_arg_function("abort")])]);
    match &pkg.items[0] {
        BindingItem::Function(f) => {
            assert_eq!(f.name, "abort");
            assert_eq!(f.return_type, BindingType::Void);
            assert!(f.parameters.is_empty());
        }
        other => panic!("expected Function, got {:?}", other),
    }
}

#[test]
fn extract_enum() {
    // enum color { RED, GREEN = 5, BLUE };
    let pkg = extract(vec![enumeration("color", vec![("RED", None), ("GREEN", Some(number(5))), ("BLUE", None)])]);
    let enums: Vec<_> = pkg
        .items
        .iter()
        .filter_map(|i| match i {
            BindingItem::Enum(e) => Some(e),
            _ => None,
        })
        .collect();
    assert_eq!(enums.len(), 1);
    let e = &enums[0];
    assert_eq!(e.name.as_deref(), Some("color"));
    assert_eq!(e.variants.len(), 3);
    assert!(e.representation.is_none());
    assert_eq!(e.variants[0].name, "RED");
    assert_eq!(e.variants[0].value, None);
    assert_eq!(e.variants[1].name, "GREEN");
    assert_eq!(e.variants[1].value, Some(5));
    assert_eq!(e.variants[2].name, "BLUE");
}

fn point_fields() -> Vec<StructField> {
    vec![member(vec![TypeSpecifier::Int], "x", None), member(vec![TypeSpecifier::Int], "y", None)]
}

#[test]
fn extract_struct_with_fields() {
    // struct point { int x; int y; };
    let pkg = extract(vec![declaration(vec![ty(record(false, "point", Some(point_fields())))], Vec::new())]);
    let records: Vec<_> = pkg
        .items
        .iter()
        .filter_map(|i| match i {
            BindingItem::Record(r) => Some(r),
            _ => None,
        })
        .collect();
    assert_eq!(records.len(), 1);
    let r = &records[0];
    assert_eq!(r.kind, RecordKind::Struct);
    assert_eq!(r.name.as_deref(), Some("point"));
    assert!(!r.is_opaque());
    let fields = r.fields.as_ref().unwrap();
    assert_eq!(fields.len(), 2);
    assert_eq!(fields[0].name.as_deref(), Some("x"));
    assert_eq!(fields[0].ty, BindingType::Int);
    assert_eq!(fields[0].bit_width, None);
}

#[test]
fn extract_opaque_struct() {
    // struct FILE;
    let pkg = extract(vec![declaration(vec![ty(record(false, "FILE", None))], Vec::new())]);
    let records: Vec<_> = pkg
        .items
        .iter()
        .filter_map(|i| match i {
            BindingItem::Record(r) => Some(r),
            _ => None,
        })
        .collect();
    assert_eq!(records.len(), 1);
    assert!(records[0].is_opaque());
    assert_eq!(records[0].name.as_deref(), Some("FILE"));
}

#[test]
fn extract_union() {
    // union data { int i; float f; };
    let fields = vec![member(vec![TypeSpecifier::Int], "i", None), member(vec![TypeSpecifier::Float], "f", None)];
    let pkg = extract(vec![declaration(vec![ty(record(true, "data", Some(fields)))], Vec::new())]);
    let records: Vec<_> = pkg
        .items
        .iter()
        .filter_map(|i| match i {
            BindingItem::Record(r) => Some(r),
            _ => None,
        })
        .collect();
    assert_eq!(records.len(), 1);
    assert_eq!(records[0].kind, RecordKind::Union);
    assert_eq!(records[0].name.as_deref(), Some("data"));
}

#[test]
fn extract_bitfield_widths_partially() {
    // struct flags { unsigned value:3; unsigned other:5; };
    let fields = vec![
        member(vec![TypeSpecifier::Unsigned], "value", Some(3)),
        member(vec![TypeSpecifier::Unsigned], "other", Some(5)),
    ];
    let pkg = extract(vec![declaration(vec![ty(record(false, "flags", Some(fields)))], Vec::new())]);
    let record = pkg
        .items
        .iter()
        .find_map(|item| match item {
            BindingItem::Record(record) => Some(record),
            _ => None,
        })
        .unwrap();
    let fields = record.fields.as_ref().unwrap();
    assert_eq!(fields[0].name.as_deref(), Some("value"));
    assert_eq!(fields[0].bit_width, Some(3));
    assert_eq!(fields[1].name.as_deref(), Some("other"));
    assert_eq!(fields[1].bit_width, Some(5));
    assert!(pkg.diagnostics.iter().any(|diag| diag.message.contains("bitfield layout partially represented")));
}

#[test]
fn extract_function_returning_pointer() {
    // void *malloc(unsigned long size);
    let size = param(vec![ty(TypeSpecifier::Unsigned), ty(TypeSpecifier::Long)], Some(named("size")));
    let pkg = extract(vec![declaration(
        vec![ty(TypeSpecifier::Void)],
        vec![derived(named("malloc"), vec![pointer(), prototype(vec![size], false)])],
    )]);
    match &pkg.items[0] {
        BindingItem::Function(f) => {
            assert_eq!(f.name, "malloc");
            assert_eq!(f.return_type, BindingType::ptr(BindingType::Void));
            assert_eq!(f.parameters.len(), 1);
            assert_eq!(f.parameters[0].ty, BindingType::ULong);
        }
        other => panic!("expected Function, got {:?}", other),
    }
}

#[test]
fn extract_extern_variable() {
    // extern int errno;
    let pkg = extract(vec![declaration(vec![storage(StorageClass::Extern), ty(TypeSpecifier::Int)], vec![named("errno")])]);
    match &pkg.items[0] {
        BindingItem::Variable(v) => {
            assert_eq!(v.name, "errno");
            assert_eq!(v.ty, BindingType::Int);
        }
        other => panic!("expected Variable, got {:?}", other),
    }
}

#[test]
fn extract_typedef_struct() {
    // typedef struct point { int x; int y; } point_t;
    let pkg = extract(vec![declaration(
        vec![storage(StorageClass::Typedef), ty(record(false, "point", Some(point_fields())))],
        vec![named("point_t")],
    )]);
    let records: Vec<_> = pkg
        .items
        .iter()
        .filter_map(|i| match i {
            BindingItem::Record(r) => Some(r),
            _ => None,
        })
        .collect();
    let aliases: Vec<_> = pkg
        .items
        .iter()
        .filter_map(|i| match i {
            BindingItem::TypeAlias(ta) => Some(ta),
            _ => None,
        })
        .collect();
    assert_eq!(records.len(), 1);
    assert_eq!(aliases.len(), 1);
    assert_eq!(records[0].name.as_deref(), Some("point"));
    assert_eq!(aliases[0].name, "point_t");
    assert_eq!(aliases[0].target, BindingType::RecordRef("point".into()));
}

fn library_surface() -> Vec<ExternalDeclaration> {
    let void_ptr_param = |name: &str| param(vec![ty(TypeSpecifier::Void)], Some(derived(named(name), vec![pointer()])));
    vec![
        // typedef unsigned long size_t;
        declaration(
            vec![storage(StorageClass::Typedef), ty(TypeSpecifier::Unsigned), ty(TypeSpecifier::Long)],
            vec![named("size_t")],
        ),
        // void *malloc(size_t size);
        declaration(
            vec![ty(TypeSpecifier::Void)],
            vec![derived(
                named("malloc"),
                vec![
                    pointer(),
                    prototype(vec![param(vec![ty(TypeSpecifier::TypedefName("size_t".into()))], Some(named("size")))], false),
                ],
            )],
        ),
        // void free(void *ptr);
        declaration(vec![ty(TypeSpecifier::Void)], vec![derived(named("free"), vec![prototype(vec![void_ptr_param("ptr")], false)])]),
        // struct FILE;
        declaration(vec![ty(record(false, "FILE", None))], Vec::new()),
        // extern int errno;
        declaration(vec![storage(StorageClass::Extern), ty(TypeSpecifier::Int)], vec![named("errno")]),
    ]
}

#[test]
fn extract_multiple_declarations() {
    let pkg = extract(library_surface());
    assert_eq!(pkg.items.len(), 5);
}

#[test]
fn extract_function_pointer_typedef() {
    // typedef void (*handler_t)(int sig);
    let inner = derived(named("handler_t"), vec![pointer()]);
    let declarator = Declarator {
        kind: DeclaratorKind::Declarator(Box::new(inner)),
        derived: vec![prototype(vec![param(vec![ty(TypeSpecifier::Int)], Some(named("sig")))], false)],
        extensions: Vec::new(),
    };
    let pkg = extract(vec![declaration(vec![storage(StorageClass::Typedef), ty(TypeSpecifier::Void)], vec![declarator])]);
    match &pkg.items[0] {
        BindingItem::TypeAlias(ta) => {
            assert_eq!(ta.name, "handler_t");
            match &ta.target {
                BindingType::Pointer { pointee: inner, .. } => match inner.as_ref() {
                    BindingType::FunctionPointer { return_type, parameters, variadic } => {
                        assert_eq!(**return_type, BindingType::Void);
                        assert_eq!(parameters.len(), 1);
                        assert_eq!(parameters[0], BindingType::Int);
                        assert!(!variadic);
                    }
                    other => panic!("expected FunctionPointer inside Pointer, got {:?}", other),
                },
                other => panic!("expected Pointer, got {:?}", other),
            }
        }
        other => panic!("expected TypeAlias, got {:?}", other),
    }
}

#[test]
fn extract_const_char_pointer_param() {
    // int puts(const char *s);
    let pkg = extract(vec![declaration(
        vec![ty(TypeSpecifier::Int)],
        vec![derived(named("puts"), vec![prototype(vec![const_char_ptr_param("s")], false)])],
    )]);
    match &pkg.items[0] {
        BindingItem::Function(f) => {
            assert_eq!(f.parameters[0].ty, BindingType::const_ptr(BindingType::Char));
        }
        other => panic!("expected Function, got {:?}", other),
    }
}

#[test]
fn extract_mutable_pointer_param() {
    // void fill(int *buf);
    let buf = param(vec![ty(TypeSpecifier::Int)], Some(derived(named("buf"), vec![pointer()])));
    let pkg = extract(vec![declaration(vec![ty(TypeSpecifier::Void)], vec![derived(named("fill"), vec![prototype(vec![buf], false)])])]);
    match &pkg.items[0] {
        BindingItem::Function(f) => {
            assert_eq!(f.parameters[0].ty, BindingType::ptr(BindingType::Int));
        }
        other => panic!("expected Function, got {:?}", other),
    }
}

#[test]
fn extract_const_void_pointer_return() {
    // const void *memchr(const void *s, int c, unsigned long n);
    let params = vec![
        param(vec![qualifier(TypeQualifier::Const), ty(TypeSpecifier::Void)], Some(derived(named("s"), vec![pointer()]))),
        param(vec![ty(TypeSpecifier::Int)], Some(named("c"))),
        param(vec![ty(TypeSpecifier::Unsigned), ty(TypeSpecifier::Long)], Some(named("n"))),
    ];
    let pkg = extract(vec![declaration(
        vec![qualifier(TypeQualifier::Const), ty(TypeSpecifier::Void)],
        vec![derived(named("memchr"), vec![pointer(), prototype(params, false)])],
    )]);
    match &pkg.items[0] {
        BindingItem::Function(f) => {
            assert_eq!(f.return_type, BindingType::const_ptr(BindingType::Void));
            assert_eq!(f.parameters[0].ty, BindingType::const_ptr(BindingType::Void));
            assert_eq!(f.parameters[1].ty, BindingType::Int);
        }
        other => panic!("expected Function, got {:?}", other),
    }
}

#[test]
fn extract_const_field_pointer() {
    // struct s { const char *name; int *data; };
    let name = StructField {
        specifiers: vec![
            SpecifierQualifier::TypeQualifier(TypeQualifier::Const),
            SpecifierQualifier::TypeSpecifier(TypeSpecifier::Char),
        ],
        declarators: vec![StructDeclarator { declarator: Some(derived(named("name"), vec![pointer()])), bit_width: None }],
    };
    let data = StructField {
        specifiers: vec![SpecifierQualifier::TypeSpecifier(TypeSpecifier::Int)],
        declarators: vec![StructDeclarator { declarator: Some(derived(named("data"), vec![pointer()])), bit_width: None }],
    };
    let pkg = extract(vec![declaration(vec![ty(record(false, "s", Some(vec![name, data])))], Vec::new())]);
    let records: Vec<_> = pkg
        .items
        .iter()
        .filter_map(|i| match i {
            BindingItem::Record(r) => Some(r),
            _ => None,
        })
        .collect();
    let fields = records[0].fields.as_ref().unwrap();
    assert_eq!(fields[0].ty, BindingType::const_ptr(BindingType::Char));
    assert_eq!(fields[1].ty, BindingType::ptr(BindingType::Int));
}

#[test]
fn diag_bitfield_warning() {
    // struct s { int x : 3; int y; };
    let fields = vec![member(vec![TypeSpecifier::Int], "x", Some(3)), member(vec![TypeSpecifier::Int], "y", None)];
    let pkg = extract(vec![declaration(vec![ty(record(false, "s", Some(fields)))], Vec::new())]);
    assert_eq!(pkg.diagnostics.len(), 1);
    assert_eq!(pkg.diagnostics[0].kind, DiagnosticKind::DeclarationPartial);
    assert!(pkg.diagnostics[0].message.contains("bitfield"));
    assert_eq!(pkg.diagnostics[0].item_name.as_deref(), Some("x"));
}

#[test]
fn diag_static_function_unsupported() {
    // static int helper(void) { return 0; }
    let pkg = extract(vec![definition(vec![storage(StorageClass::Static), ty(TypeSpecifier::Int)], no_arg_function("helper"))]);
    let funcs: Vec<_> = pkg.items.iter().filter(|i| matches!(i, BindingItem::Function(_))).collect();
    assert!(funcs.is_empty());
    assert_eq!(pkg.diagnostics.len(), 1);
    assert_eq!(pkg.diagnostics[0].kind, DiagnosticKind::DeclarationUnsupported);
    assert!(pkg.diagnostics[0].message.contains("static"));
}

#[test]
fn captures_atomic_qualifier() {
    // _Atomic int counter(void);
    let pkg = extract(vec![declaration(
        vec![qualifier(TypeQualifier::Atomic), ty(TypeSpecifier::Int)],
        vec![no_arg_function("counter")],
    )]);
    match &pkg.items[0] {
        BindingItem::Function(f) => assert_eq!(
            f.return_type,
            BindingType::Qualified {
                ty: Box::new(BindingType::Int),
                qualifiers: TypeQualifiers { is_const: false, is_volatile: false, is_restrict: false, is_atomic: true },
            }
        ),
        other => panic!("expected Function, got {:?}", other),
    }
}

#[test]
fn diag_diagnostics_count_by_kind() {
    // struct s { int a : 1; int b : 2; };
    let fields = vec![member(vec![TypeSpecifier::Int], "a", Some(1)), member(vec![TypeSpecifier::Int], "b", Some(2))];
    let pkg = extract(vec![declaration(vec![ty(record(false, "s", Some(fields)))], Vec::new())]);
    let counts = pkg.diagnostics_count_by_kind();
    assert!(counts.contains(&("DeclarationPartial".to_string(), 2)));
}

fn determinism_source() -> Vec<ExternalDeclaration> {
    vec![
        // typedef int int32_t;
        declaration(vec![storage(StorageClass::Typedef), ty(TypeSpecifier::Int)], vec![named("int32_t")]),
        // enum status { OK = 0, ERR = 1 };
        enumeration("status", vec![("OK", Some(number(0))), ("ERR", Some(number(1)))]),
        // struct point { int x; int y; };
        declaration(vec![ty(record(false, "point", Some(point_fields())))], Vec::new()),
        // void *malloc(unsigned long size);
        declaration(
            vec![ty(TypeSpecifier::Void)],
            vec![derived(
                named("malloc"),
                vec![pointer(), prototype(vec![param(vec![ty(TypeSpecifier::Unsigned), ty(TypeSpecifier::Long)], Some(named("size")))], false)],
            )],
        ),
    ]
}

#[test]
fn ir_determinism() {
    let pkg1 = extract(determinism_source());
    let pkg2 = extract(determinism_source());
    assert_eq!(pkg1, pkg2);
}

#[test]
fn captures_volatile_qualifier() {
    // volatile int flag(void);
    let pkg = extract(vec![declaration(
        vec![qualifier(TypeQualifier::Volatile), ty(TypeSpecifier::Int)],
        vec![no_arg_function("flag")],
    )]);
    match &pkg.items[0] {
        BindingItem::Function(f) => assert_eq!(
            f.return_type,
            BindingType::Qualified {
                ty: Box::new(BindingType::Int),
                qualifiers: TypeQualifiers { is_const: false, is_volatile: true, is_restrict: false, is_atomic: false },
            }
        ),
        other => panic!("expected Function, got {:?}", other),
    }
}

#[test]
fn diag_inline_specifier() {
    // inline int fast(void) { return 0; }
    let pkg = extract(vec![definition(
        vec![DeclarationSpecifier::Function(FunctionSpecifier::Inline), ty(TypeSpecifier::Int)],
        no_arg_function("fast"),
    )]);
    let diags: Vec<_> = pkg.diagnostics.iter().filter(|d| d.message.contains("inline")).collect();
    assert_eq!(diags.len(), 1);
    assert_eq!(diags[0].kind, DiagnosticKind::DeclarationPartial);
}

#[test]
fn captures_calling_convention_attribute() {
    // int api(void) __attribute__((stdcall));
    let mut declarator = no_arg_function("api");
    declarator.extensions = vec![Extension::Attribute("stdcall".into())];
    let pkg = extract(vec![declaration(vec![ty(TypeSpecifier::Int)], vec![declarator])]);
    match &pkg.items[0] {
        BindingItem::Function(function) => {
            assert_eq!(function.calling_convention, CallingConvention::Stdcall);
        }
        other => panic!("expected Function, got {:?}", other),
    }
    assert!(pkg.diagnostics.iter().all(|diagnostic| !diagnostic.message.contains("stdcall")));
}

#[test]
fn diag_noreturn_specifier() {
    // _Noreturn void die(void);
    let pkg = extract(vec![declaration(
        vec![DeclarationSpecifier::Function(FunctionSpecifier::Noreturn), ty(TypeSpecifier::Void)],
        vec![no_arg_function("die")],
    )]);
    let diags: Vec<_> = pkg.diagnostics.iter().filter(|d| d.message.contains("_Noreturn")).collect();
    assert_eq!(diags.len(), 1);
}

#[test]
fn diag_static_assert() {
    // _Static_assert(1, "ok");
    let pkg = extract(vec![ExternalDeclaration::StaticAssert(0)]);
    let diags: Vec<_> = pkg.diagnostics.iter().filter(|d| d.message.contains("_Static_assert")).collect();
    assert_eq!(diags.len(), 1);
}

fn shift(n: i64) -> Expression {
    binary(BinaryOperator::ShiftLeft, number(1), number(n))
}

#[test]
fn eval_enum_bitwise_ops() {
    // enum flags { A = 1 << 0, B = 1 << 1, C = 1 << 2, AB = (1 << 0) | (1 << 1) };
    let pkg = extract(vec![enumeration(
        "flags",
        vec![
            ("A", Some(shift(0))),
            ("B", Some(shift(1))),
            ("C", Some(shift(2))),
            ("AB", Some(binary(BinaryOperator::BitwiseOr, shift(0), shift(1)))),
        ],
    )]);
    assert_eq!(enum_values(&pkg), vec![Some(1), Some(2), Some(4), Some(3)]);
}

#[test]
fn eval_enum_comparison_ops() {
    // enum cmp { LT = (1 < 2), EQ = (2 == 2), NE = (1 != 1) };
    let pkg = extract(vec![enumeration(
        "cmp",
        vec![
            ("LT", Some(binary(BinaryOperator::Less, number(1), number(2)))),
            ("EQ", Some(binary(BinaryOperator::Equals, number(2), number(2)))),
            ("NE", Some(binary(BinaryOperator::NotEquals, number(1), number(1)))),
        ],
    )]);
    assert_eq!(enum_values(&pkg), vec![Some(1), Some(1), Some(0)]);
}

#[test]
fn eval_enum_logical_ops() {
    // enum logic { AND = (1 && 0), OR = (0 || 1), NOT = (!0) };
    let pkg = extract(vec![enumeration(
        "logic",
        vec![
            ("AND", Some(binary(BinaryOperator::LogicalAnd, number(1), number(0)))),
            ("OR", Some(binary(BinaryOperator::LogicalOr, number(0), number(1)))),
            ("NOT", Some(Expression::Unary(UnaryOperator::Negate, Box::new(number(0))))),
        ],
    )]);
    assert_eq!(enum_values(&pkg), vec![Some(0), Some(1), Some(1)]);
}

#[test]
fn eval_enum_ternary() {
    // enum tern { X = (1 > 0) ? 42 : 99 };
    let condition = binary(BinaryOperator::Greater, number(1), number(0));
    let value = Expression::Conditional(Box::new(condition), Box::new(number(42)), Box::new(number(99)));
    let pkg = extract(vec![enumeration("tern", vec![("X", Some(value))])]);
    assert_eq!(enum_values(&pkg), vec![Some(42)]);
}

#[test]
fn eval_enum_modulo() {
    // enum m { A = 10 % 3 };
    let pkg = extract(vec![enumeration("m", vec![("A", Some(binary(BinaryOperator::Modulo, number(10), number(3))))])]);
    assert_eq!(enum_values(&pkg), vec![Some(1)]);
}

// --- constant expressions and attributes on their own ---

#[test]
fn constant_expressions_wrap_and_refuse_undefined_division() {
    let hex = Expression::Integer { base: IntegerBase::Hexadecimal, number: "ff".into() };
    assert_eq!(eval_const_expr(&hex), Some(255));
    let octal = Expression::Integer { base: IntegerBase::Octal, number: "17".into() };
    assert_eq!(eval_const_expr(&octal), Some(15));
    let binary_digits = Expression::Integer { base: IntegerBase::Binary, number: "101".into() };
    assert_eq!(eval_const_expr(&binary_digits), Some(5));
    assert_eq!(eval_const_expr(&binary(BinaryOperator::Divide, number(7), number(0))), None);
    assert_eq!(eval_const_expr(&binary(BinaryOperator::Divide, number(-7), number(2))), Some(-3));
    assert_eq!(eval_const_expr(&binary(BinaryOperator::Modulo, number(-7), number(2))), Some(-1));
    assert_eq!(eval_const_expr(&Expression::Unary(UnaryOperator::Complement, Box::new(number(0)))), Some(-1));
    assert_eq!(eval_const_expr(&Expression::Unary(UnaryOperator::Minus, Box::new(number(5)))), Some(-5));
    assert_eq!(eval_const_expr(&Expression::Cast(Box::new(number(9)))), Some(9));
    assert_eq!(eval_const_expr(&Expression::Comma(Some(Box::new(number(4))))), Some(4));
    assert_eq!(eval_const_expr(&Expression::Other), None);
    let huge = Expression::Integer { base: IntegerBase::Decimal, number: "170141183460469231731687303715884105727".into() };
    assert_eq!(eval_const_expr(&binary(BinaryOperator::Plus, huge, number(1))), Some(i128::MIN));
}

#[test]
fn attribute_names_select_calling_conventions() {
    assert_eq!(calling_convention_from_attr_name(" __StdCall "), Some(CallingConvention::Stdcall));
    assert_eq!(calling_convention_from_attr_name("cdecl"), Some(CallingConvention::Cdecl));
    assert_eq!(calling_convention_from_attr_name("__fastcall"), Some(CallingConvention::Fastcall));
    assert_eq!(calling_convention_from_attr_name("vectorcall"), Some(CallingConvention::Vectorcall));
    assert_eq!(calling_convention_from_attr_name("thiscall"), Some(CallingConvention::Thiscall));
    assert_eq!(calling_convention_from_attr_name("noreturn"), None);
}

#[test]
fn ignored_attributes_are_reported_together() {
    let mut declarator = no_arg_function("api");
    declarator.extensions = vec![
        Extension::Attribute("cdecl".into()),
        Extension::Attribute("deprecated".into()),
        Extension::AsmLabel,
        Extension::AvailabilityAttribute,
    ];
    let pkg = extract(vec![declaration(vec![ty(TypeSpecifier::Int)], vec![declarator])]);
    assert_eq!(pkg.diagnostics.len(), 1);
    assert_eq!(pkg.diagnostics[0].message, "attributes ignored: deprecated, asm_label, availability");
    assert_eq!(pkg.diagnostics[0].item_name.as_deref(), Some("api"));
    match &pkg.items[0] {
        BindingItem::Function(f) => assert_eq!(f.calling_convention, CallingConvention::Cdecl),
        other => panic!("expected Function, got {:?}", other),
    }
}

#[test]
fn array_declarators_carry_constant_lengths() {
    // typedef char name_t[4 * 8];
    let declarator = derived(
        named("name_t"),
        vec![DerivedDeclarator::Array(linc::c_ast::ArraySize::VariableExpression(binary(
            BinaryOperator::Multiply,
            number(4),
            number(8),
        )))],
    );
    let pkg = extract(vec![declaration(vec![storage(StorageClass::Typedef), ty(TypeSpecifier::Char)], vec![declarator])]);
    match &pkg.items[0] {
        BindingItem::TypeAlias(ta) => assert_eq!(ta.target, BindingType::Array(Box::new(BindingType::Char), Some(32))),
        other => panic!("expected TypeAlias, got {:?}", other),
    }
}

#[test]
fn extraction_of_two_runs_is_their_extractions_in_order() {
    let whole = extract(library_surface().into_iter().chain(determinism_source()).collect());
    let first = extract(library_surface());
    let second = extract(determinism_source());
    let mut items = first.items.clone();
    items.extend(second.items.clone());
    let mut diagnostics = first.diagnostics.clone();
    diagnostics.extend(second.diagnostics.clone());
    assert_eq!(whole.items, items);
    assert_eq!(whole.diagnostics, diagnostics);
}
