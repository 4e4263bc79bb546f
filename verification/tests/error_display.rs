use linc::error::BicError;

#[test]
fn error_display_no_headers() {
    let e = BicError::NoHeaders;
    assert_eq!(e.to_string(), "no entry headers specified");
}

#[test]
fn error_display_preprocessor() {
    let e = BicError::PreprocessorFailed {
        command: "gcc".into(),
        stderr: "file not found".into(),
    };
    assert!(e.to_string().contains("gcc"));
}

#[test]
fn error_display_invalid_config() {
    let e = BicError::InvalidConfig {
        reason: "entry header path must not be empty".into(),
    };
    assert!(e.to_string().contains("invalid configuration"));
    assert!(e.to_string().contains("entry header path"));
}

#[test]
fn error_display_probe_compile() {
    let e = BicError::ProbeCompile {
        compiler: "cc".into(),
        stderr: "compiler missing".into(),
    };
    assert!(e.to_string().contains("compiler missing"));
}

#[test]
fn error_display_probe_execution() {
    let e = BicError::ProbeExecution {
        reason: "signal".into(),
    };
    assert!(e.to_string().contains("signal"));
}

#[test]
fn error_display_probe_output() {
    let e = BicError::ProbeOutput {
        reason: "bad line".into(),
    };
    assert!(e.to_string().contains("bad line"));
}

#[test]
fn error_display_schema() {
    let e = BicError::SchemaVersion { found: 99, supported: 1 };
    assert!(e.to_string().contains("99"));
}

#[test]
fn error_from_io() {
    let io_err = std::io::Error::new(std::io::ErrorKind::NotFound, "gone");
    let bic_err: BicError = io_err.into();
    assert!(bic_err.to_string().contains("gone"));
}

#[test]
fn error_to_string() {
    let e = BicError::ParseFailed { source: "bad".into() };
    let s: String = e.into();
    assert!(s.contains("bad"));
}
