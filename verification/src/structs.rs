//! Shared records: the authentication context, issues and command options.

use vstd::prelude::*;

verus! {

/// The immutable per-process connection context.
#[derive(Debug, Clone)]
pub struct AuthOptions {
    pub host: String,
    pub user: Option<String>,
    pub pass: Option<String>,
}

impl Default for AuthOptions {
    /// A localhost context without credentials.
    fn default() -> (r: AuthOptions)
        ensures
            r.host@ == "localhost"@,
            r.user is None,
            r.pass is None,
    {
        AuthOptions { host: String::from_str("localhost"), user: None, pass: None }
    }
}

/// The connection options as the argument parser hands them over.
#[derive(Debug, Clone)]
pub struct ArgOptions {
    pub host: String,
    pub user: Option<String>,
    pub pass: Option<String>,
}

impl Default for ArgOptions {
    /// A localhost context without credentials.
    fn default() -> (r: ArgOptions)
        ensures
            r.host@ == "localhost"@,
            r.user is None,
            r.pass is None,
    {
        ArgOptions { host: String::from_str("localhost"), user: None, pass: None }
    }
}

/// One issue of a search response.
#[derive(Debug, Clone)]
pub struct Issue {
    pub expand: String,
    pub id: String,
    pub issue_link: String,
    pub key: String,
    pub fields: Option<Fields>,
}

/// The named fields of an issue.
#[derive(Debug, Clone)]
pub struct Fields {
    pub summary: Option<String>,
    pub description: Option<String>,
}

/// A component reference in a payload.
#[derive(Debug, Clone)]
pub struct Component {
    pub name: String,
}

/// The table row of an issue: summary, key, id, link.  The issue must
/// carry a summary; the caller checks before rendering.
pub fn issue_row(issue: &Issue) -> (r: Vec<String>)
    requires
        issue.fields matches Some(f) && f.summary is Some,
    ensures
        r@.len() == 4,
        r@[0]@ == issue.fields->0.summary->0@,
        r@[1]@ == issue.key@,
        r@[2]@ == issue.id@,
        r@[3]@ == issue.issue_link@,
{
    let mut r: Vec<String> = Vec::new();
    match &issue.fields {
        Some(f) => match &f.summary {
            Some(su) => {
                r.push(su.clone());
            },
            None => {
                proof {
                    assert(false);
                }
            },
        },
        None => {
            proof {
                assert(false);
            }
        },
    }
    r.push(issue.key.clone());
    r.push(issue.id.clone());
    r.push(issue.issue_link.clone());
    r
}

/// The header row above issue listings.
pub fn issue_header_row() -> (r: Vec<String>)
    ensures
        r@.len() == 4,
        r@[0]@ == "Name"@,
        r@[1]@ == "Key"@,
        r@[2]@ == "ID"@,
        r@[3]@ == "Link"@,
{
    let mut r: Vec<String> = Vec::new();
    r.push(String::from_str("Name"));
    r.push(String::from_str("Key"));
    r.push(String::from_str("ID"));
    r.push(String::from_str("Link"));
    r
}

/// The parsed top-level command line.
#[derive(Debug)]
pub struct Opts {
    pub log_level: String,
    pub commands: Option<Command>,
}

/// What the user asked for.
#[derive(Debug)]
pub enum Command {
    ListProjects,
    ListStories(crate::stories::StoryListOps),
    ListEpics(crate::epics::EpicOps),
    AddStories(crate::stories::StoryOps),
}

} // verus!
