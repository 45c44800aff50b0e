//! The error taxonomy of the core: generation failed upstream, or an
//! internal fault. Neither changes any core state for the failing request.

use vstd::prelude::*;

verus! {

/// Why a request could not be served with a page.
pub enum AppError {
    /// The external generation collaborator failed; the message says how.
    Generation(String),
    /// An internal fault not tied to generation.
    Internal(String),
}

impl AppError {
    /// The HTTP status code and the message body this error maps to.
    pub fn status_and_message(&self) -> (r: (u16, String))
        ensures
            match self {
                AppError::Generation(m) => r.0 == 502 && r.1@ == m@,
                AppError::Internal(_) => r.0 == 500 && r.1@ == "internal error"@,
            },
    {
        match self {
            AppError::Generation(m) => (502, m.clone()),
            AppError::Internal(_) => (500, "internal error".to_owned()),
        }
    }
}

} // verus!
