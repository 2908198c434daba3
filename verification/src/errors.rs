//! The library's error type.

use vstd::prelude::*;
use crate::text::{concat2, push_decimal, decimal_seq};

verus! {

/// `std::io::Error`, carried through unchanged.
#[verifier::external_type_specification]
#[verifier::external_body]
pub struct ExIoError(std::io::Error);

/// Errors raised while configuring, analysing or writing documentation.
#[derive(Debug)]
pub enum ArchDocError {
    Io(std::io::Error),
    ParseError { file: String, line: usize, message: String },
    ConfigError(String),
    AnalysisError(String),
    RenderingError(String),
    ConsistencyError(String),
}

/// The text of an I/O error (`Display` of `std::io::Error`).
///
/// Nothing is claimed of the text: it comes from the operating system.
#[verifier::external_body]
fn io_error_text(e: &std::io::Error) -> String {
    format!("{}", e)
}

/// The message of an error other than an I/O error, as `to_string` shows it.
pub open spec fn error_text(e: &ArchDocError) -> Seq<char> {
    match e {
        ArchDocError::Io(_) => seq![],
        ArchDocError::ParseError { file, line, message } => "Parse error in "@ + file@ + ":"@
            + decimal_seq(*line as nat) + ": "@ + message@,
        ArchDocError::ConfigError(m) => "Configuration error: "@ + m@,
        ArchDocError::AnalysisError(m) => "Analysis error: "@ + m@,
        ArchDocError::RenderingError(m) => "Rendering error: "@ + m@,
        ArchDocError::ConsistencyError(m) => "File consistency check failed: "@ + m@,
    }
}

impl ArchDocError {
    /// The human-readable message of the error.
    pub fn to_string(&self) -> (r: String)
        ensures
            !(self is Io) ==> r@ == error_text(self),
            self is Io ==> exists|t: Seq<char>| r@ == "IO error: "@ + t,
    {
        match self {
            ArchDocError::Io(e) => {
                let t = io_error_text(e);
                concat2("IO error: ", t.as_str())
            },
            ArchDocError::ParseError { file, line, message } => {
                let mut r = concat2("Parse error in ", file.as_str());
                r.append(":");
                push_decimal(&mut r, *line as u64);
                r.append(": ");
                r.append(message.as_str());
                r
            },
            ArchDocError::ConfigError(m) => concat2("Configuration error: ", m.as_str()),
            ArchDocError::AnalysisError(m) => concat2("Analysis error: ", m.as_str()),
            ArchDocError::RenderingError(m) => concat2("Rendering error: ", m.as_str()),
            ArchDocError::ConsistencyError(m) => concat2(
                "File consistency check failed: ",
                m.as_str(),
            ),
        }
    }
}

} // verus!
