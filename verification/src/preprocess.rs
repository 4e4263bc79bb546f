//! Extraction input from an already preprocessed translation unit: its text, the
//! path to record as the package source, and the dialect to parse it as. The caller
//! parses the text; the declarations of the parsed unit are extracted here.
use vstd::prelude::*;

use crate::diagnostics::{Diagnostic, DiagnosticKind, Severity};
use crate::c_ast::TranslationUnit;
use crate::extract::{diagnostic_models, extract_from_translation_unit, item_models, unit_output};
use crate::ir::{has_new_metadata, BindingPackage};
use crate::raw_headers::Flavor;
use crate::text::usize_to_string;

verus! {

/// A preprocessed translation unit awaiting extraction.
#[derive(Debug, Clone)]
pub struct PreprocessedInput {
    pub source: String,
    pub source_path: Option<String>,
    pub flavor: Flavor,
}

/// Where and why parsing a preprocessed unit failed.
#[derive(Debug, Clone, PartialEq, Eq)]
pub struct ParseFailure {
    pub line: usize,
    pub column: usize,
    /// The tokens the parser expected, as it prints them.
    pub expected: String,
}

/// The message of a parse failure: `parse error at line L:C: EXPECTED`.
pub open spec fn parse_failure_text(f: ParseFailure) -> Seq<char> {
    "parse error at line "@ + crate::text::dec_str(f.line as nat) + ":"@ + crate::text::dec_str(
        f.column as nat,
    ) + ": "@ + f.expected@
}

impl PreprocessedInput {
    /// Input from source text, with no recorded path, parsed as GNU C11.
    pub fn from_string(source: &str) -> (r: Self)
        ensures
            r.source@ == source@,
            r.source_path is None,
            r.flavor == Flavor::GnuC11,
    {
        PreprocessedInput { source: source.to_owned(), source_path: None, flavor: Flavor::GnuC11 }
    }

    /// The same input, recording `path` as its source.
    pub fn with_path(self, path: &str) -> (r: Self)
        ensures
            r.source == self.source,
            r.flavor == self.flavor,
            r.source_path matches Some(p) && p@ == path@,
    {
        let mut input = self;
        input.source_path = Some(path.to_owned());
        input
    }

    /// The same input, parsed as `flavor`.
    pub fn with_flavor(self, flavor: Flavor) -> (r: Self)
        ensures
            r == (PreprocessedInput { flavor, ..self }),
    {
        let mut input = self;
        input.flavor = flavor;
        input
    }

    /// The package of the unit, given what parsing it gave: the items and diagnostics
    /// that extraction finds in the parsed unit, or no declarations and one
    /// `ParseFailed` error locating the failure; the source path is recorded either way.
    pub fn extract(&self, parsed: Result<TranslationUnit, ParseFailure>) -> (r: BindingPackage)
        ensures
            has_new_metadata(r),
            r.source_path == self.source_path,
            match parsed {
                Ok(unit) => item_models(r.items@) == unit_output(unit.declarations@).0
                    && diagnostic_models(r.diagnostics@) == unit_output(unit.declarations@).1,
                Err(f) => r.items@.len() == 0 && r.diagnostics@.len() == 1
                    && r.diagnostics@[0].kind == DiagnosticKind::ParseFailed
                    && r.diagnostics@[0].severity == Severity::Error
                    && r.diagnostics@[0].message@ == parse_failure_text(f),
            },
    {
        match parsed {
            Ok(unit) => extract_from_translation_unit(&unit, crate::text::clone_opt(&self.source_path)),
            Err(f) => {
                let mut package = BindingPackage::new();
                package.source_path = crate::text::clone_opt(&self.source_path);
                let mut text = "parse error at line ".to_owned();
                let line = usize_to_string(f.line);
                let column = usize_to_string(f.column);
                text.append(line.as_str());
                text.append(":");
                text.append(column.as_str());
                text.append(": ");
                text.append(f.expected.as_str());
                package.diagnostics.push(Diagnostic::error(DiagnosticKind::ParseFailed, text.as_str()));
                package
            },
        }
    }
}

} // verus!
