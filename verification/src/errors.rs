//! The error kinds the library reports.  Each processed document yields
//! exactly one outcome: a success variant or one of these errors.

use vstd::prelude::*;
use vstd::string::StringExecFns;

verus! {

/// `std::io::Error`, as an opaque value carried inside `Error::FileError`.
#[verifier::external_type_specification]
#[verifier::external_body]
pub struct ExIoError(std::io::Error);

/// What can go wrong while processing one document.
///
/// `FileError` wraps an operating-system failure with a description of the
/// attempted operation; `ParseError` reports bytes that could not be decoded;
/// `NoBodyElementError` reports a tree without a body element;
/// `ElementExpected` reports an internal node-kind mismatch; and
/// `SerializeError` / `EncodeError` report a tree that could not be rendered
/// back to text.
#[derive(Debug)]
pub enum Error {
    ElementExpected(String),
    EncodeError(String),
    FileError(std::io::Error, String),
    NoBodyElementError,
    ParseError(String),
    SerializeError(String),
}

/// Relies on the `Debug` impl of `std::io::Error` for a human-readable
/// description; nothing is assumed about the text.
#[verifier::external_body]
fn io_error_text(e: &std::io::Error) -> String {
    format!("{e:#?}")
}

impl Error {
    /// A human-readable description of the error.  The text wrapped from an
    /// operating-system failure is not specified beyond its position.
    pub fn message(&self) -> (r: String)
        ensures
            match self {
                Error::ElementExpected(g) => r@ == "Env-as-HTML-Data expected an Element node, but got "@
                    + g@,
                Error::EncodeError(e) => r@ == "Env-as-HTML-Data output encoding error, "@ + e@,
                Error::FileError(_, d) => exists|t: Seq<char>|
                    r@ == "Env-as-HTML-Data file error, "@ + d@ + ", "@ + t,
                Error::NoBodyElementError => r@
                    == "Env-as-HTML-Data no body element found in document"@,
                Error::ParseError(e) => r@ == "Env-as-HTML-Data document parsing error, "@ + e@,
                Error::SerializeError(e) => r@ == "Env-as-HTML-Data document serialization error, "@
                    + e@,
            },
    {
        match self {
            Error::ElementExpected(g) => {
                let mut m = String::from_str("Env-as-HTML-Data expected an Element node, but got ");
                m.append(g.as_str());
                m
            },
            Error::EncodeError(e) => {
                let mut m = String::from_str("Env-as-HTML-Data output encoding error, ");
                m.append(e.as_str());
                m
            },
            Error::FileError(e, d) => {
                let mut m = String::from_str("Env-as-HTML-Data file error, ");
                m.append(d.as_str());
                m.append(", ");
                let t = io_error_text(e);
                m.append(t.as_str());
                proof {
                    assert(m@ == "Env-as-HTML-Data file error, "@ + d@ + ", "@ + t@);
                }
                m
            },
            Error::NoBodyElementError => String::from_str(
                "Env-as-HTML-Data no body element found in document",
            ),
            Error::ParseError(e) => {
                let mut m = String::from_str("Env-as-HTML-Data document parsing error, ");
                m.append(e.as_str());
                m
            },
            Error::SerializeError(e) => {
                let mut m = String::from_str("Env-as-HTML-Data document serialization error, ");
                m.append(e.as_str());
                m
            },
        }
    }
}

} // verus!
