//! Epic listing: the search query and the rows of the listing.

use vstd::prelude::*;

use crate::structs::Issue;

verus! {

/// The epic-listing component.
pub struct EpicHandler;

/// A page of issues returned by an epic search.
#[derive(Debug, Clone)]
pub struct Epic {
    pub issues: Option<Vec<Issue>>,
}

/// Command-line arguments of the epic-listing command.
#[derive(Debug, Clone)]
pub struct EpicOps {
    pub project_key: String,
}

impl EpicHandler {
    /// The search URL that lists a project's epics with their summaries
    /// and descriptions.
    pub fn search_url(&self, host: &str, project_key: &str) -> (r: String)
        ensures
            r@ == host@ + crate::spec_rest_uri() + "/search?jql="@ + "PROJECT="@ + project_key@
                + " AND issuetype=Epic&fields=summary,description"@,
    {
        let mut url: String = host.to_owned();
        url.append(crate::rest_uri());
        url.append("/search?jql=");
        url.append("PROJECT=");
        url.append(project_key);
        url.append(" AND issuetype=Epic&fields=summary,description");
        url
    }
}

} // verus!
