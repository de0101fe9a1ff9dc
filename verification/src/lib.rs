//! Verified core of a command-line client for a Jira-like issue tracker.
//!
//! The library covers the custom-field resolution and caching subsystem and
//! the story-creation field-merging pipeline: a bidirectional, project-scoped
//! mapping between human field names and tracker-internal field identifiers,
//! a field-name translator for query and payload construction, and a typed
//! merge of command-line arguments, templates and defaults into creation
//! payloads.  Network and file access stay outside; the library consumes and
//! produces plain values.

pub mod chars;
pub mod custom_fields;
pub mod epics;
pub mod errors;
pub mod field_map;
pub mod json;
pub mod json_parse;
pub mod json_props;
pub mod projects;
pub mod stories;
pub mod structs;
pub mod translator;

use vstd::prelude::*;

verus! {

/// The REST path prefix every tracker endpoint lives under.
pub open spec fn spec_rest_uri() -> Seq<char> {
    "/rest/api/2"@
}

/// Exec mirror of [`spec_rest_uri`].
pub fn rest_uri() -> (r: &'static str)
    ensures
        r@ == spec_rest_uri(),
{
    "/rest/api/2"
}

} // verus!
