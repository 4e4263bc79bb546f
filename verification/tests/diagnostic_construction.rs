use linc::diagnostics::{Diagnostic, DiagnosticKind, Severity};

#[test]
fn diagnostic_error_construction() {
    let d = Diagnostic::error(DiagnosticKind::ParseFailed, "unexpected token");
    assert_eq!(d.severity, Severity::Error);
    assert_eq!(d.kind, DiagnosticKind::ParseFailed);
    assert_eq!(d.message, "unexpected token");
    assert!(d.location.is_none());
    assert!(d.item_name.is_none());
}

#[test]
fn diagnostic_warning_with_location() {
    let d = Diagnostic::warning(DiagnosticKind::DeclarationPartial, "bitfield ignored")
        .with_location(Some("test.h".into()), 42)
        .with_item("my_struct");
    assert_eq!(d.severity, Severity::Warning);
    assert_eq!(d.location.as_ref().unwrap().offset, 42);
    assert_eq!(d.item_name.as_deref(), Some("my_struct"));
}

