//! Diagnostics attached to packages and reports.
use vstd::prelude::*;

verus! {

#[derive(Debug, Clone, Copy, PartialEq, Eq, Structural)]
pub enum Severity {
    Warning,
    Error,
}

#[derive(Debug, Clone, Copy, PartialEq, Eq, Structural)]
pub enum DiagnosticKind {
    PreprocessingFailed,
    ParseFailed,
    ProbeUnavailable,
    ProbeFailed,
    DeclarationUnsupported,
    DeclarationPartial,
    SymbolMissing,
    SymbolAmbiguous,
    SymbolMatched,
}

/// The name of a diagnostic kind, as its variant is spelled.
pub open spec fn kind_name(k: DiagnosticKind) -> Seq<char> {
    match k {
        DiagnosticKind::PreprocessingFailed => "PreprocessingFailed"@,
        DiagnosticKind::ParseFailed => "ParseFailed"@,
        DiagnosticKind::ProbeUnavailable => "ProbeUnavailable"@,
        DiagnosticKind::ProbeFailed => "ProbeFailed"@,
        DiagnosticKind::DeclarationUnsupported => "DeclarationUnsupported"@,
        DiagnosticKind::DeclarationPartial => "DeclarationPartial"@,
        DiagnosticKind::SymbolMissing => "SymbolMissing"@,
        DiagnosticKind::SymbolAmbiguous => "SymbolAmbiguous"@,
        DiagnosticKind::SymbolMatched => "SymbolMatched"@,
    }
}

impl DiagnosticKind {
    /// The kind's name, as its variant is spelled.
    pub fn name(&self) -> (r: String)
        ensures
            r@ == kind_name(*self),
    {
        match self {
            DiagnosticKind::PreprocessingFailed => "PreprocessingFailed".to_owned(),
            DiagnosticKind::ParseFailed => "ParseFailed".to_owned(),
            DiagnosticKind::ProbeUnavailable => "ProbeUnavailable".to_owned(),
            DiagnosticKind::ProbeFailed => "ProbeFailed".to_owned(),
            DiagnosticKind::DeclarationUnsupported => "DeclarationUnsupported".to_owned(),
            DiagnosticKind::DeclarationPartial => "DeclarationPartial".to_owned(),
            DiagnosticKind::SymbolMissing => "SymbolMissing".to_owned(),
            DiagnosticKind::SymbolAmbiguous => "SymbolAmbiguous".to_owned(),
            DiagnosticKind::SymbolMatched => "SymbolMatched".to_owned(),
        }
    }
}

/// Distinct kinds have distinct names.
pub proof fn lemma_kind_name_injective(a: DiagnosticKind, b: DiagnosticKind)
    ensures
        kind_name(a) == kind_name(b) ==> a == b,
{
    reveal_strlit("PreprocessingFailed");
    reveal_strlit("ParseFailed");
    reveal_strlit("ProbeUnavailable");
    reveal_strlit("ProbeFailed");
    reveal_strlit("DeclarationUnsupported");
    reveal_strlit("DeclarationPartial");
    reveal_strlit("SymbolMissing");
    reveal_strlit("SymbolAmbiguous");
    reveal_strlit("SymbolMatched");
    if kind_name(a) == kind_name(b) && a != b {
        let x = kind_name(a);
        let y = kind_name(b);
        assert(x.len() != y.len() || exists|i: int| 0 <= i < x.len() && x[i] != y[i]) by {
            if x.len() == y.len() {
                if x[0] != y[0] {
                } else if x[1] != y[1] {
                } else if x[2] != y[2] {
                } else if x[3] != y[3] {
                } else if x[4] != y[4] {
                } else if x[5] != y[5] {
                } else if x[6] != y[6] {
                } else {
                    assert(x[7] != y[7]);
                }
            }
        }
    }
}

#[derive(Debug, Clone, PartialEq, Eq)]
pub struct SourceLocation {
    pub file: Option<String>,
    pub offset: usize,
}

#[derive(Debug, Clone, PartialEq, Eq)]
pub struct Diagnostic {
    pub kind: DiagnosticKind,
    pub severity: Severity,
    pub message: String,
    pub location: Option<SourceLocation>,
    pub item_name: Option<String>,
    pub artifact_path: Option<String>,
}

impl Diagnostic {
    /// An error diagnostic with no location, item or artifact.
    pub fn error(kind: DiagnosticKind, message: &str) -> (r: Self)
        ensures
            r.kind == kind,
            r.severity == Severity::Error,
            r.message@ == message@,
            r.location.is_none(),
            r.item_name.is_none(),
            r.artifact_path.is_none(),
    {
        Diagnostic {
            kind,
            severity: Severity::Error,
            message: message.to_owned(),
            location: None,
            item_name: None,
            artifact_path: None,
        }
    }

    /// A warning diagnostic with no location, item or artifact.
    pub fn warning(kind: DiagnosticKind, message: &str) -> (r: Self)
        ensures
            r.kind == kind,
            r.severity == Severity::Warning,
            r.message@ == message@,
            r.location.is_none(),
            r.item_name.is_none(),
            r.artifact_path.is_none(),
    {
        Diagnostic {
            kind,
            severity: Severity::Warning,
            message: message.to_owned(),
            location: None,
            item_name: None,
            artifact_path: None,
        }
    }

    /// The same diagnostic located at `offset` in `file`.
    pub fn with_location(self, file: Option<String>, offset: usize) -> (r: Self)
        ensures
            r == (Diagnostic { location: Some(SourceLocation { file, offset }), ..self }),
    {
        let mut d = self;
        d.location = Some(SourceLocation { file, offset });
        d
    }

    /// The same diagnostic attached to the item `name`.
    pub fn with_item(self, name: &str) -> (r: Self)
        ensures
            r.item_name matches Some(n) && n@ == name@,
            r.kind == self.kind,
            r.severity == self.severity,
            r.message == self.message,
            r.location == self.location,
            r.artifact_path == self.artifact_path,
    {
        let mut d = self;
        d.item_name = Some(name.to_owned());
        d
    }
}

} // verus!
