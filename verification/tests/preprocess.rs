use linc::c_ast::{
    Declaration, DeclarationSpecifier, Declarator, DeclaratorKind, DerivedDeclarator,
    ExternalDeclaration, ParameterDeclaration, StorageClass, StructDeclarator, StructField,
    StructType, SpecifierQualifier, TranslationUnit, TypeSpecifier,
};
use linc::diagnostics::DiagnosticKind;
use linc::ir::{BindingItem, BindingType};
use linc::preprocess::{ParseFailure, PreprocessedInput};
use linc::raw_headers::Flavor;

fn named(name: &str) -> Declarator {
    Declarator { kind: DeclaratorKind::Identifier(name.into()), derived: Vec::new(), extensions: Vec::new() }
}

fn ty(t: TypeSpecifier) -> DeclarationSpecifier {
    DeclarationSpecifier::TypeSpecifier(t)
}

fn declaration(specifiers: Vec<DeclarationSpecifier>, declarators: Vec<Declarator>) -> ExternalDeclaration {
    ExternalDeclaration::Declaration(Declaration { specifiers, declarators }, 0)
}

fn unit(declarations: Vec<ExternalDeclaration>) -> TranslationUnit {
    TranslationUnit { declarations }
}

fn function(name: &str, pointer_return: bool, params: Vec<ParameterDeclaration>) -> Declarator {
    let mut derived = Vec::new();
    if pointer_return {
        derived.push(DerivedDeclarator::Pointer(Vec::new()));
    }
    derived.push(DerivedDeclarator::Function(params, false));
    Declarator { kind: DeclaratorKind::Identifier(name.into()), derived, extensions: Vec::new() }
}

fn void_params() -> Vec<ParameterDeclaration> {
    vec![ParameterDeclaration { specifiers: vec![ty(TypeSpecifier::Void)], declarator: None }]
}

/// `typedef int int32_t;`
fn typedef_int() -> TranslationUnit {
    unit(vec![declaration(
        vec![DeclarationSpecifier::StorageClass(StorageClass::Typedef), ty(TypeSpecifier::Int)],
        vec![named("int32_t")],
    )])
}

#[test]
fn preprocessed_from_string() {
    let input = PreprocessedInput::from_string("typedef int int32_t;");
    let pkg = input.extract(Ok(typedef_int()));
    assert_eq!(pkg.items.len(), 1);
    assert!(pkg.diagnostics.is_empty());
    assert!(pkg.source_path.is_none());
}

#[test]
fn preprocessed_with_path() {
    let input = PreprocessedInput::from_string("void foo(void);").with_path("test.i");
    let parsed = unit(vec![declaration(vec![ty(TypeSpecifier::Void)], vec![function("foo", false, void_params())])]);
    let pkg = input.extract(Ok(parsed));
    assert_eq!(pkg.source_path.as_deref(), Some("test.i"));
    assert_eq!(pkg.items.len(), 1);
}

#[test]
fn preprocessed_parse_error() {
    let input = PreprocessedInput::from_string("this is not valid c @@@@");
    let failure = ParseFailure { line: 1, column: 6, expected: "[\";\"]".into() };
    let pkg = input.extract(Err(failure));
    assert!(pkg.items.is_empty());
    assert!(!pkg.diagnostics.is_empty());
    assert_eq!(pkg.diagnostics[0].kind, DiagnosticKind::ParseFailed);
    assert_eq!(pkg.diagnostics[0].message, "parse error at line 1:6: [\";\"]");
}

fn stdlib_unit() -> TranslationUnit {
    let field = |name: &str| StructField {
        specifiers: vec![SpecifierQualifier::TypeSpecifier(TypeSpecifier::Int)],
        declarators: vec![StructDeclarator { declarator: Some(named(name)), bit_width: None }],
    };
    let point = StructType { is_union: false, identifier: Some("point".into()), declarations: Some(vec![field("x"), field("y")]) };
    let size_param = ParameterDeclaration { specifiers: vec![ty(TypeSpecifier::TypedefName("size_t".into()))], declarator: Some(named("n")) };
    let ptr_param = ParameterDeclaration {
        specifiers: vec![ty(TypeSpecifier::Void)],
        declarator: Some(Declarator {
            kind: DeclaratorKind::Identifier("ptr".into()),
            derived: vec![DerivedDeclarator::Pointer(Vec::new())],
            extensions: Vec::new(),
        }),
    };
    unit(vec![
        declaration(
            vec![DeclarationSpecifier::StorageClass(StorageClass::Typedef), ty(TypeSpecifier::Unsigned), ty(TypeSpecifier::Long)],
            vec![named("size_t")],
        ),
        declaration(vec![ty(TypeSpecifier::Struct(point))], Vec::new()),
        declaration(vec![ty(TypeSpecifier::Void)], vec![function("malloc", true, vec![size_param])]),
        declaration(vec![ty(TypeSpecifier::Void)], vec![function("free", false, vec![ptr_param])]),
    ])
}

#[test]
fn preprocessed_multiple_items() {
    let input = PreprocessedInput::from_string("typedef unsigned long size_t; ...").with_path("stdlib.i");
    let pkg = input.extract(Ok(stdlib_unit()));
    assert_eq!(pkg.source_path.as_deref(), Some("stdlib.i"));
    assert_eq!(pkg.items.len(), 4);
    match &pkg.items[2] {
        BindingItem::Function(f) => {
            assert_eq!(f.name, "malloc");
            assert_eq!(f.return_type, BindingType::ptr(BindingType::Void));
            assert_eq!(f.parameters[0].ty, BindingType::TypedefRef("size_t".into()));
        }
        other => panic!("expected Function, got {:?}", other),
    }
}

#[test]
fn preprocessed_deterministic_output() {
    let pkg1 = PreprocessedInput::from_string("typedef int int32_t;").extract(Ok(typedef_int()));
    let pkg2 = PreprocessedInput::from_string("typedef int int32_t;").extract(Ok(typedef_int()));
    assert_eq!(pkg1, pkg2);
}

#[test]
fn preprocessed_with_flavor() {
    let input = PreprocessedInput::from_string("typedef int x;").with_flavor(Flavor::StdC11);
    assert_eq!(input.flavor, Flavor::StdC11);
    let pkg = input.extract(Ok(typedef_int()));
    assert_eq!(pkg.items.len(), 1);
}
