//! Value types of a retrieved wiki page and the output format chosen for
//! showing one.

use vstd::prelude::*;

use crate::confluence_types::{ContentBody, ContentType};
use crate::printer::SerdePrinter;
use crate::text::str_eq;

verus! {

/// The version stamp of a stored page.
#[derive(Debug)]
pub struct ContentVersion {
    /// When the version was written, as the server reported it.
    pub when: String,
    pub number: u64,
    pub minor_edit: bool,
    pub hidden: bool,
}

/// One retrieved content entry.
#[derive(Debug)]
pub struct GetResult {
    pub id: String,
    pub content_type: ContentType,
    pub status: String,
    pub title: String,
    pub body: ContentBody,
    pub version: ContentVersion,
}

/// How a retrieved page is shown: as a plain-text rendering or serialized.
#[derive(Clone, Copy, PartialEq, Eq, Structural, Debug)]
pub enum ContentPrinter {
    Email,
    Serde(SerdePrinter),
}

impl ContentPrinter {
    /// The printer a command-line argument names, if any.
    pub fn of_str(s: &str) -> (r: Option<ContentPrinter>)
        ensures
            (r == Some(ContentPrinter::Email)) == (s@ == "email"@),
    {
        if str_eq(s, "email") {
            Some(ContentPrinter::Email)
        } else {
            match SerdePrinter::of_str(s) {
                Some(p) => Some(ContentPrinter::Serde(p)),
                None => None,
            }
        }
    }
}

impl std::str::FromStr for ContentPrinter {
    type Err = String;

    fn from_str(s: &str) -> Result<Self, Self::Err> {
        match Self::of_str(s) {
            Some(v) => Ok(v),
            None => Err("Unknown printer variant".to_owned()),
        }
    }
}

} // verus!
