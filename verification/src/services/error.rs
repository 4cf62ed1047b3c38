//! The request-pipeline error kinds and the HTTP status each one maps to.

use vstd::prelude::*;

verus! {

/// What can go wrong between routing a request and running its handler.
#[derive(Debug, PartialEq, Eq)]
pub enum Error {
    EndpointNotFound(String),
    EndpointExecution(String),
    ParserError(String),
    RegexError(String),
}

impl Error {
    /// A missing endpoint is the client's fault; everything else is the
    /// server's.
    pub open spec fn spec_status_code(&self) -> u16 {
        if self is EndpointNotFound {
            404
        } else {
            500
        }
    }

    /// The HTTP status code this error maps to.
    pub fn get_status_code(&self) -> (r: u16)
        ensures
            r == self.spec_status_code(),
    {
        match self {
            Error::EndpointNotFound(_) => 404,
            _ => 500,
        }
    }
}

} // verus!
