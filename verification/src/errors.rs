//! The error taxonomy: how a failure is surfaced, and with which context.

use vstd::prelude::*;
use vstd::string::StringExecFns;

verus! {

/// Why an operation failed. The carried text names what was being reached
/// or looked up, so a failure can be diagnosed from the error alone.
#[derive(Clone, Debug, PartialEq, Eq)]
pub enum Error {
    /// A source store or a remote endpoint could not be reached.
    Connection(String),
    /// A read against a store was malformed or failed.
    Query(String),
    /// A filter was used before its predicates were normalized.
    NotReady,
    /// No provider, node or browser of that name is known.
    NotFound(String),
}

impl Error {
    /// A short, stable name for the error's kind.
    pub fn kind(&self) -> (r: &'static str)
        ensures
            self is Connection ==> r@ == "connection error"@,
            self is Query ==> r@ == "query error"@,
            self is NotReady ==> r@ == "filter is not ready"@,
            self is NotFound ==> r@ == "not found"@,
    {
        match self {
            Error::Connection(_) => "connection error",
            Error::Query(_) => "query error",
            Error::NotReady => "filter is not ready",
            Error::NotFound(_) => "not found",
        }
    }

    /// The kind together with the carried context.
    pub fn message(&self) -> (r: String)
        ensures
            self matches Error::Connection(c) ==> r@ == "connection error: "@ + c@,
            self matches Error::Query(c) ==> r@ == "query error: "@ + c@,
            self is NotReady ==> r@ == "filter is not ready"@,
            self matches Error::NotFound(c) ==> r@ == "not found: "@ + c@,
    {
        match self {
            Error::Connection(c) => {
                let mut s: String = "connection error: ".to_owned();
                s.append(c.as_str());
                s
            },
            Error::Query(c) => {
                let mut s: String = "query error: ".to_owned();
                s.append(c.as_str());
                s
            },
            Error::NotReady => "filter is not ready".to_owned(),
            Error::NotFound(c) => {
                let mut s: String = "not found: ".to_owned();
                s.append(c.as_str());
                s
            },
        }
    }
}

} // verus!
