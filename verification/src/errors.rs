//! Error kinds of the client's core.
//!
//! Cache persistence failures are recoverable (the caller logs them and keeps
//! the in-memory maps); every other kind aborts the current command.

use vstd::prelude::*;

verus! {

/// What can go wrong while resolving fields or building a payload.
#[derive(Debug)]
pub enum JiraError {
    /// The network call failed or returned a non-success status.
    RemoteFetch,
    /// A JSON or YAML document could not be decoded.
    Deserialization,
    /// The server returned no projects or issue types for the given key.
    InvalidProject,
    /// A display name was absent from the cache at call time.
    UnknownField(String),
    /// A cache file could not be written; never fatal.
    CachePersist,
    /// An explicitly given template file could not be read or parsed.
    TemplateLoad,
}

impl JiraError {
    /// A short, fixed description of the error kind.
    pub open spec fn spec_message(&self) -> Seq<char> {
        match self {
            JiraError::RemoteFetch => "remote fetch failed"@,
            JiraError::Deserialization => "malformed document"@,
            JiraError::InvalidProject => "no data for the given project key"@,
            JiraError::UnknownField(_) => "unknown custom field"@,
            JiraError::CachePersist => "failed to persist the field cache"@,
            JiraError::TemplateLoad => "failed to load the story template"@,
        }
    }

    /// Exec mirror of [`Self::spec_message`].
    pub fn message(&self) -> (r: String)
        ensures
            r@ == self.spec_message(),
    {
        match self {
            JiraError::RemoteFetch => String::from_str("remote fetch failed"),
            JiraError::Deserialization => String::from_str("malformed document"),
            JiraError::InvalidProject => String::from_str("no data for the given project key"),
            JiraError::UnknownField(_) => String::from_str("unknown custom field"),
            JiraError::CachePersist => String::from_str("failed to persist the field cache"),
            JiraError::TemplateLoad => String::from_str("failed to load the story template"),
        }
    }
}

} // verus!
