//! Frontend-neutral intake layer for LINC.
//!
//! This module defines the source contract that LINC consumes. It is independent
//! of any specific parser or frontend AST, so that another frontend can be
//! substituted without touching LINC core logic.
pub mod adapters;
pub mod source;

pub use source::{
    SourceDeclaration, SourceEnum, SourceEnumVariant, SourceField, SourceFunction,
    SourceLinkKind, SourceLinkRequirement, SourceMacro, SourcePackage, SourceParameter,
    SourceRecord, SourceType, SourceTypeAlias, SourceVariable,
};
