//! Captured preprocessor macros, their classification and their provenance.
use vstd::prelude::*;

use crate::line_markers::{SourceLocation, SourceOrigin};

verus! {

/// High-level interpretation of a captured macro body.
#[derive(Debug, Clone, Copy, PartialEq, Eq, Structural)]
pub enum MacroKind {
    Integer,
    String,
    Expression,
    Other,
}

/// Whether a macro is object-like or function-like at the preprocessor level.
#[derive(Debug, Clone, Copy, PartialEq, Eq, Default, Structural)]
pub enum MacroForm {
    #[default]
    ObjectLike,
    FunctionLike,
}

/// Consumer-facing classification for how a macro should be treated downstream.
#[derive(Debug, Clone, Copy, PartialEq, Eq, Default, Structural)]
pub enum MacroCategory {
    #[default]
    BindableConstant,
    ConfigurationFlag,
    AbiAffecting,
    Unsupported,
}

/// Parsed constant value for macros that are safe to lower directly.
#[derive(Debug, Clone, PartialEq, Eq)]
pub enum MacroValue {
    Integer(i128),
    String(String),
}

/// One captured preprocessor macro.
///
/// `function_like` is kept for compatibility, while `form` is the normalized
/// representation.
#[derive(Debug, Clone, PartialEq, Eq)]
pub struct MacroBinding {
    pub name: String,
    pub body: String,
    pub function_like: bool,
    pub form: MacroForm,
    pub kind: MacroKind,
    pub category: MacroCategory,
    pub value: Option<MacroValue>,
}

impl MacroBinding {
    pub fn is_unsupported_function_like(&self) -> (r: bool)
        ensures
            r == (self.category == MacroCategory::Unsupported && self.form
                == MacroForm::FunctionLike),
    {
        self.category == MacroCategory::Unsupported && self.form == MacroForm::FunctionLike
    }

    pub fn is_unsupported_object_like(&self) -> (r: bool)
        ensures
            r == (self.category == MacroCategory::Unsupported && self.form
                == MacroForm::ObjectLike),
    {
        self.category == MacroCategory::Unsupported && self.form == MacroForm::ObjectLike
    }
}

/// Per-macro provenance attached at the package layer.
#[derive(Debug, Clone, PartialEq, Eq, Default)]
pub struct MacroProvenance {
    pub macro_name: String,
    pub source_origin: Option<SourceOrigin>,
    pub source_location: Option<SourceLocation>,
}

/// Filtered macro environment entry intended for ABI/configuration auditing.
#[derive(Debug, Clone, PartialEq, Eq)]
pub struct MacroEnvironmentEntry {
    pub macro_name: String,
    pub category: MacroCategory,
    pub value: Option<MacroValue>,
    pub source_origin: Option<SourceOrigin>,
    pub source_location: Option<SourceLocation>,
}

} // verus!
