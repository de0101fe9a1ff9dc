//! Project listing: the request URL and the rows of the listing.

use vstd::prelude::*;

verus! {

/// The project-listing component.
pub struct ProjectHandler;

/// What the listing shows of one project.
#[derive(Debug, Clone)]
pub struct ProjectDisplay {
    pub name: String,
    pub key: String,
    pub id: String,
}

/// The avatar links of a project, by size.
#[derive(Debug, Clone)]
pub struct AvatarUrls {
    pub sixteen_url: String,
    pub twenty_four_url: String,
    pub thirty_two_url: String,
    pub forty_eight_url: String,
}

/// The category block of a project.
#[derive(Debug, Clone)]
pub struct ProjectCategory {
    pub project_category: String,
    pub id: String,
    pub name: String,
    pub description: String,
}

impl ProjectHandler {
    /// The URL that lists all projects.
    pub fn list_url(&self, host: &str) -> (r: String)
        ensures
            r@ == host@ + crate::spec_rest_uri() + "/project"@,
    {
        let mut url: String = host.to_owned();
        url.append(crate::rest_uri());
        url.append("/project");
        url
    }

    /// The table row of one project: key, name, id.
    pub fn project_row(&self, p: &ProjectDisplay) -> (r: Vec<String>)
        ensures
            r@.len() == 3,
            r@[0]@ == p.key@,
            r@[1]@ == p.name@,
            r@[2]@ == p.id@,
    {
        let mut r: Vec<String> = Vec::new();
        r.push(p.key.clone());
        r.push(p.name.clone());
        r.push(p.id.clone());
        r
    }

    /// The header row above project listings.
    pub fn project_header_row(&self) -> (r: Vec<String>)
        ensures
            r@.len() == 3,
            r@[0]@ == "Key"@,
            r@[1]@ == "Name"@,
            r@[2]@ == "ID"@,
    {
        let mut r: Vec<String> = Vec::new();
        r.push(String::from_str("Key"));
        r.push(String::from_str("Name"));
        r.push(String::from_str("ID"));
        r
    }
}

} // verus!
