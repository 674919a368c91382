//! The error taxonomy surfaced to callers.

use vstd::prelude::*;

verus! {

/// Every internal failure is converted to exactly one of these kinds at the
/// module boundary; the calling layer is responsible for reporting it.
#[derive(Debug, PartialEq, Eq)]
pub enum TealdeerError {
    /// Filesystem, extraction or general cache failures.
    CacheError(String),
    /// The cache or configuration directory cannot be resolved.
    ConfigError(String),
    /// Archive fetch or parse failures, distinguished from generic cache
    /// failures to allow differentiated messaging.
    UpdateError(String),
}

impl TealdeerError {
    /// The human-readable message the error carries.
    pub fn message(&self) -> (r: String)
        ensures
            r@ == self.message_spec(),
    {
        match self {
            TealdeerError::CacheError(msg) => msg.clone(),
            TealdeerError::ConfigError(msg) => msg.clone(),
            TealdeerError::UpdateError(msg) => msg.clone(),
        }
    }

    /// The message, as a mathematical value.
    pub open spec fn message_spec(&self) -> Seq<char> {
        match self {
            TealdeerError::CacheError(msg) => msg@,
            TealdeerError::ConfigError(msg) => msg@,
            TealdeerError::UpdateError(msg) => msg@,
        }
    }
}

} // verus!
