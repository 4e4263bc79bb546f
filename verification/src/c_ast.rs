//! The parts of a parsed C translation unit that declaration extraction reads.
//!
//! A C frontend produces the full syntax tree; this is the view of it that the
//! extractor works on: declaration specifiers, declarators with their derived
//! parts, record and enum bodies, attributes, and the integer constant expressions
//! that give enum values, array sizes and bit-field widths.
use vstd::prelude::*;

verus! {

/// A type qualifier.
#[derive(Debug, Clone, Copy, PartialEq, Eq, Structural)]
pub enum TypeQualifier {
    Const,
    Restrict,
    Volatile,
    Nonnull,
    NullUnspecified,
    Nullable,
    Atomic,
}

/// A storage-class specifier.
#[derive(Debug, Clone, Copy, PartialEq, Eq, Structural)]
pub enum StorageClass {
    Typedef,
    Extern,
    Static,
    ThreadLocal,
    Auto,
    Register,
}

/// A function specifier.
#[derive(Debug, Clone, Copy, PartialEq, Eq, Structural)]
pub enum FunctionSpecifier {
    Inline,
    Noreturn,
}

/// The base in which an integer constant is written.
#[derive(Debug, Clone, Copy, PartialEq, Eq, Structural)]
pub enum IntegerBase {
    Decimal,
    Octal,
    Hexadecimal,
    Binary,
}

/// A unary operator.
#[derive(Debug, Clone, Copy, PartialEq, Eq, Structural)]
pub enum UnaryOperator {
    Minus,
    Plus,
    /// `~`
    Complement,
    /// `!`
    Negate,
    /// Any other unary operator (address-of, dereference, increments, `sizeof`, ...).
    Other,
}

/// A binary operator.
#[derive(Debug, Clone, Copy, PartialEq, Eq, Structural)]
pub enum BinaryOperator {
    Plus,
    Minus,
    Multiply,
    Divide,
    Modulo,
    ShiftLeft,
    ShiftRight,
    BitwiseAnd,
    BitwiseOr,
    BitwiseXor,
    Equals,
    NotEquals,
    Less,
    Greater,
    LessOrEqual,
    GreaterOrEqual,
    LogicalAnd,
    LogicalOr,
    /// Any other binary operator (assignments, indexing, ...).
    Other,
}

/// An expression, as far as constant evaluation reads it.
#[derive(Debug, PartialEq, Eq)]
pub enum Expression {
    /// An integer constant: its digits (without prefix or suffix) and their base.
    Integer { base: IntegerBase, number: String },
    Unary(UnaryOperator, Box<Expression>),
    Binary(BinaryOperator, Box<Expression>, Box<Expression>),
    Conditional(Box<Expression>, Box<Expression>, Box<Expression>),
    /// A cast; the target type does not matter to the value.
    Cast(Box<Expression>),
    /// A comma expression, by its last part.
    Comma(Option<Box<Expression>>),
    /// Any other expression (identifiers, calls, floating or character constants, ...).
    Other,
}

/// A struct or union type specifier.
#[derive(Debug, PartialEq, Eq)]
pub struct StructType {
    pub is_union: bool,
    pub identifier: Option<String>,
    /// The member declarations, when the specifier has a body.
    pub declarations: Option<Vec<StructField>>,
}

/// One member declaration of a record body.
#[derive(Debug, PartialEq, Eq)]
pub struct StructField {
    pub specifiers: Vec<SpecifierQualifier>,
    pub declarators: Vec<StructDeclarator>,
}

/// A specifier or qualifier of a record member.
#[derive(Debug, PartialEq, Eq)]
pub enum SpecifierQualifier {
    TypeSpecifier(TypeSpecifier),
    TypeQualifier(TypeQualifier),
    Other,
}

/// One declarator of a record member, with its bit-field width.
#[derive(Debug, PartialEq, Eq)]
pub struct StructDeclarator {
    pub declarator: Option<Declarator>,
    pub bit_width: Option<Expression>,
}

/// An enum type specifier.
#[derive(Debug, PartialEq, Eq)]
pub struct EnumType {
    pub identifier: Option<String>,
    pub enumerators: Vec<Enumerator>,
}

/// One enum constant and its value expression.
#[derive(Debug, PartialEq, Eq)]
pub struct Enumerator {
    pub identifier: String,
    pub expression: Option<Expression>,
}

/// A type specifier.
#[derive(Debug, PartialEq, Eq)]
pub enum TypeSpecifier {
    Void,
    Char,
    Short,
    Int,
    Long,
    Float,
    Double,
    Signed,
    Unsigned,
    Bool,
    Complex,
    Struct(StructType),
    Enum(EnumType),
    TypedefName(String),
    TypeOf,
    /// Any other specifier (atomic types, vendor extensions, ...).
    Other,
}

/// A declaration specifier.
#[derive(Debug, PartialEq, Eq)]
pub enum DeclarationSpecifier {
    StorageClass(StorageClass),
    TypeSpecifier(TypeSpecifier),
    TypeQualifier(TypeQualifier),
    Function(FunctionSpecifier),
    /// `_Alignas`
    Alignment,
    /// Any other specifier (attributes in specifier position, ...).
    Other,
}

/// A declarator extension.
#[derive(Debug, Clone, PartialEq, Eq)]
pub enum Extension {
    /// `__attribute__((name ...))`, by its name.
    Attribute(String),
    AsmLabel,
    AvailabilityAttribute,
}

/// What a declarator declares at its core.
#[derive(Debug, PartialEq, Eq)]
pub enum DeclaratorKind {
    Abstract,
    Identifier(String),
    /// A parenthesized inner declarator.
    Declarator(Box<Declarator>),
}

/// The size of an array declarator.
#[derive(Debug, PartialEq, Eq)]
pub enum ArraySize {
    Unknown,
    VariableUnknown,
    VariableExpression(Expression),
    StaticExpression(Expression),
}

/// A derived part of a declarator, innermost first.
#[derive(Debug, PartialEq, Eq)]
pub enum DerivedDeclarator {
    /// A pointer, with the type qualifiers of the pointer itself.
    Pointer(Vec<TypeQualifier>),
    Array(ArraySize),
    /// A prototype: its parameters and whether it ends in `...`.
    Function(Vec<ParameterDeclaration>, bool),
    KRFunction,
    Block,
}

/// A declarator.
#[derive(Debug, PartialEq, Eq)]
pub struct Declarator {
    pub kind: DeclaratorKind,
    pub derived: Vec<DerivedDeclarator>,
    pub extensions: Vec<Extension>,
}

/// A parameter of a prototype.
#[derive(Debug, PartialEq, Eq)]
pub struct ParameterDeclaration {
    pub specifiers: Vec<DeclarationSpecifier>,
    pub declarator: Option<Declarator>,
}

/// A declaration: its specifiers and the declarators of its init-declarators.
#[derive(Debug, PartialEq, Eq)]
pub struct Declaration {
    pub specifiers: Vec<DeclarationSpecifier>,
    pub declarators: Vec<Declarator>,
}

/// A function definition (its body does not matter).
#[derive(Debug, PartialEq, Eq)]
pub struct FunctionDefinition {
    pub specifiers: Vec<DeclarationSpecifier>,
    pub declarator: Declarator,
}

/// A top-level declaration with the byte offset where it starts.
#[derive(Debug, PartialEq, Eq)]
pub enum ExternalDeclaration {
    Declaration(Declaration, usize),
    FunctionDefinition(FunctionDefinition, usize),
    StaticAssert(usize),
}

/// A parsed translation unit.
#[derive(Debug, PartialEq, Eq)]
pub struct TranslationUnit {
    pub declarations: Vec<ExternalDeclaration>,
}

} // verus!
