//! Configuration value types for the report queries.

use vstd::prelude::*;

use crate::jira::JiraServer;

verus! {

/// The name of a custom field a query refers to.
#[derive(Debug)]
pub struct JiraQueryCustomField {
    pub name: String,
}

/// One configured search: the instance to ask and the query text.
#[derive(Debug)]
pub struct JiraQuery {
    pub jira: JiraServer,
    pub query: String,
}

} // verus!
