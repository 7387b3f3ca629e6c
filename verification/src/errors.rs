//! The error taxonomy of the updater.
//!
//! Every failure of the core operations falls into one of four kinds, each
//! carrying the context a caller needs to report the failure precisely.

use vstd::prelude::*;

verus! {

/// A failure of one of the core operations.
///
/// - `NetworkError`: a transport-level failure reaching an external endpoint
///   (connection, name resolution, TLS, timeout), carrying a description.
/// - `ParseError`: a response body did not yield a valid IPv4 address, or a
///   required HTML body element could not be located; carries the offending
///   text verbatim.
/// - `ProviderLogicalError`: the DNS provider responded but flagged its own
///   operation unsuccessful; carries the provider's message verbatim.
/// - `ArgumentError`: a required input from the command surface was missing
///   or invalid.
#[derive(Debug, Clone, PartialEq, Eq)]
pub enum DdnsError {
    NetworkError(String),
    ParseError(String),
    ProviderLogicalError(String),
    ArgumentError(String),
}

impl DdnsError {
    /// The text carried by this error, whichever kind it is.
    pub fn message(&self) -> (r: &str)
        ensures
            r@ == self.text(),
    {
        match self {
            DdnsError::NetworkError(m) => m.as_str(),
            DdnsError::ParseError(m) => m.as_str(),
            DdnsError::ProviderLogicalError(m) => m.as_str(),
            DdnsError::ArgumentError(m) => m.as_str(),
        }
    }

    /// The text carried by this error, as a sequence of characters.
    pub open spec fn text(&self) -> Seq<char> {
        match self {
            DdnsError::NetworkError(m) => m@,
            DdnsError::ParseError(m) => m@,
            DdnsError::ProviderLogicalError(m) => m@,
            DdnsError::ArgumentError(m) => m@,
        }
    }
}

} // verus!
