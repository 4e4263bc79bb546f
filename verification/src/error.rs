//! Crate-wide typed error surface.
//!
//! Covers scan and configuration failures, preprocessing and parse failures, probe
//! execution failures, artifact inspection failures and serialization failures.
//! Validation findings are not errors: they are returned as report data.
use vstd::prelude::*;

use crate::text::{dec_str, join2, join3, u128_to_string};

verus! {

/// `std::io::Error`, carried through as an opaque value.
#[verifier::external_type_specification]
#[verifier::external_body]
pub struct ExIoError(std::io::Error);

/// Crate-wide error. Paths are kept as the strings they were given as.
#[derive(Debug)]
pub enum BicError {
    /// A scan-like operation was invoked without any entry headers.
    NoHeaders,
    /// A scan configuration was internally contradictory or nonsensical.
    InvalidConfig { reason: String },
    /// A probe-like operation was invoked without any requested type names.
    NoProbeTypes,
    /// ABI probe compilation failed before layouts could be produced.
    ProbeCompile { compiler: String, stderr: String },
    /// ABI probe execution failed before layouts could be produced.
    ProbeExecution { reason: String },
    /// ABI probe output could not be interpreted.
    ProbeOutput { reason: String },
    /// A compiler/preprocessor invocation failed before a usable translation unit was produced.
    PreprocessorFailed { command: String, stderr: String },
    /// Source parsing failed after preprocessing.
    ParseFailed { source: String },
    /// An I/O failure occurred while reading or writing an input/output boundary.
    Io(std::io::Error),
    /// Serialization or deserialization failed.
    Serialization(String),
    /// Artifact inspection failed for a specific path.
    SymbolRead { path: String, reason: String },
    /// An artifact format was recognized as unsupported for the attempted operation.
    UnsupportedFormat { path: String, format: String },
    /// The serialized package uses a schema newer than this build supports.
    SchemaVersion { found: u32, supported: u32 },
}

/// The error type under the name that the rest of the public surface uses.
pub type LincError = BicError;

/// The message of an error other than `Io`.
pub open spec fn error_text(e: BicError) -> Seq<char> {
    match e {
        BicError::NoHeaders => "no entry headers specified"@,
        BicError::InvalidConfig { reason } => "invalid configuration: "@ + reason@,
        BicError::NoProbeTypes => "no type names specified for probing"@,
        BicError::ProbeCompile { compiler, stderr } => "layout probe compilation with '"@
            + compiler@ + "' failed: "@ + stderr@,
        BicError::ProbeExecution { reason } => "layout probe execution failed: "@ + reason@,
        BicError::ProbeOutput { reason } => "invalid layout probe output: "@ + reason@,
        BicError::PreprocessorFailed { command, stderr } => "preprocessor '"@ + command@
            + "' failed: "@ + stderr@,
        BicError::ParseFailed { source } => "parse error: "@ + source@,
        BicError::Io(_) => "I/O error: "@,
        BicError::Serialization(msg) => "serialization error: "@ + msg@,
        BicError::SymbolRead { path, reason } => "failed to read symbols from "@ + path@ + ": "@
            + reason@,
        BicError::UnsupportedFormat { path, format } => "unsupported format '"@ + format@
            + "' for "@ + path@,
        BicError::SchemaVersion { found, supported } => "unsupported schema version "@ + dec_str(
            found as nat,
        ) + " (this BIC supports up to "@ + dec_str(supported as nat) + ")"@,
    }
}

/// The text of an I/O error (`Display` of `std::io::Error`).
///
/// Nothing is stated of the text: for an error from the operating system it is the
/// system's description of the error code.
#[verifier::external_body]
fn io_error_text(e: &std::io::Error) -> (r: String) {
    format!("{}", e)
}

impl BicError {
    /// The error's message; an `Io` error's message is `"I/O error: "` followed by the
    /// text of the I/O error.
    pub fn to_string(&self) -> (r: String)
        ensures
            !(*self is Io) ==> r@ == error_text(*self),
            *self is Io ==> r@.len() >= error_text(*self).len() && r@.subrange(
                0,
                error_text(*self).len() as int,
            ) == error_text(*self),
    {
        match self {
            BicError::NoHeaders => "no entry headers specified".to_owned(),
            BicError::InvalidConfig { reason } => join2("invalid configuration: ", reason.as_str()),
            BicError::NoProbeTypes => "no type names specified for probing".to_owned(),
            BicError::ProbeCompile { compiler, stderr } => {
                let head = join3("layout probe compilation with '", compiler.as_str(), "' failed: ");
                join2(head.as_str(), stderr.as_str())
            },
            BicError::ProbeExecution { reason } => join2(
                "layout probe execution failed: ",
                reason.as_str(),
            ),
            BicError::ProbeOutput { reason } => join2("invalid layout probe output: ", reason.as_str()),
            BicError::PreprocessorFailed { command, stderr } => {
                let head = join3("preprocessor '", command.as_str(), "' failed: ");
                join2(head.as_str(), stderr.as_str())
            },
            BicError::ParseFailed { source } => join2("parse error: ", source.as_str()),
            BicError::Io(e) => {
                let text = io_error_text(e);
                let r = join2("I/O error: ", text.as_str());
                assert(r@.subrange(0, "I/O error: "@.len() as int) =~= "I/O error: "@);
                r
            },
            BicError::Serialization(msg) => join2("serialization error: ", msg.as_str()),
            BicError::SymbolRead { path, reason } => {
                let head = join3("failed to read symbols from ", path.as_str(), ": ");
                join2(head.as_str(), reason.as_str())
            },
            BicError::UnsupportedFormat { path, format } => {
                let head = join3("unsupported format '", format.as_str(), "' for ");
                join2(head.as_str(), path.as_str())
            },
            BicError::SchemaVersion { found, supported } => {
                let f = u128_to_string(*found as u128);
                let s = u128_to_string(*supported as u128);
                let head = join3("unsupported schema version ", f.as_str(), " (this BIC supports up to ");
                join3(head.as_str(), s.as_str(), ")")
            },
        }
    }
}

impl From<std::io::Error> for BicError {
    fn from(e: std::io::Error) -> (r: Self) {
        BicError::Io(e)
    }
}

impl vstd::std_specs::convert::FromSpecImpl<std::io::Error> for BicError {
    open spec fn obeys_from_spec() -> bool {
        true
    }

    open spec fn from_spec(e: std::io::Error) -> BicError {
        BicError::Io(e)
    }
}

impl From<BicError> for String {
    fn from(e: BicError) -> (r: String) {
        e.to_string()
    }
}

impl vstd::std_specs::convert::FromSpecImpl<BicError> for String {
    /// An `Io` error's text is not stated, so no value is promised for the conversion.
    open spec fn obeys_from_spec() -> bool {
        false
    }

    open spec fn from_spec(e: BicError) -> String {
        arbitrary()
    }
}

} // verus!
