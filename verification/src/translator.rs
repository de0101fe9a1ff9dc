//! The field-name translator: display names to wire-format keys.
//!
//! Lookups are exact and case-sensitive.  A display name absent from the
//! map at call time is an error, never a default: a missing field means a
//! stale cache or a typo, and a partial query or payload would be worse
//! than failing loudly.

use vstd::prelude::*;

use crate::errors::JiraError;
use crate::field_map::{lookup, FieldMap};

verus! {

/// Translates a display name to its wire key, e.g. `customfield_10101`.
///
/// Returns the key bound to `display_name` in the forward map, and fails
/// with the unknown-field error exactly when the name is absent.
pub fn to_wire_key(display_name: &str, forward: &FieldMap) -> (r: Result<String, JiraError>)
    ensures
        match r {
            Ok(w) => lookup(forward@, display_name@) == Some(w@),
            Err(e) => {
                &&& lookup(forward@, display_name@) is None
                &&& e matches JiraError::UnknownField(n) && n@ == display_name@
            },
        },
{
    match forward.get(display_name) {
        Some(w) => Ok(w),
        None => Err(JiraError::UnknownField(display_name.to_owned())),
    }
}

/// Translates a display name to its JQL clause token, e.g. `cf[10101]`.
///
/// Returns the token bound to `display_name` in the reverse map, and fails
/// with the unknown-field error exactly when the name is absent.
pub fn to_jql_clause(display_name: &str, reverse: &FieldMap) -> (r: Result<String, JiraError>)
    ensures
        match r {
            Ok(c) => lookup(reverse@, display_name@) == Some(c@),
            Err(e) => {
                &&& lookup(reverse@, display_name@) is None
                &&& e matches JiraError::UnknownField(n) && n@ == display_name@
            },
        },
{
    match reverse.get(display_name) {
        Some(c) => Ok(c),
        None => Err(JiraError::UnknownField(display_name.to_owned())),
    }
}

} // verus!
