//! The value shape of a wiki page update.

use vstd::prelude::*;

use crate::confluence_types::{ContentBody, ContentType};

verus! {

/// The version stamp an update carries: one past the current version.
#[derive(Debug)]
pub struct UpdateContentBodyVersion {
    pub number: u64,
}

/// A full page update: new version, title, kind and body.
#[derive(Debug)]
pub struct UpdateContentBody {
    pub version: UpdateContentBodyVersion,
    pub title: String,
    pub content_type: ContentType,
    pub body: ContentBody,
}

} // verus!
