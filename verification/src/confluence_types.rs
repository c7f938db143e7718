//! Plain value types for wiki page content, as the update and retrieval
//! calls exchange them. The process layer serializes them at its boundary.

use vstd::prelude::*;

verus! {

/// The kind of a wiki content entry.
#[derive(Clone, Copy, PartialEq, Eq, Structural, Debug)]
pub enum ContentType {
    Page,
}

/// The markup a content body is written in.
#[derive(Clone, Copy, PartialEq, Eq, Structural, Debug)]
pub enum ContentRepresentation {
    Storage,
    Wiki,
}

/// A content body with its markup kind.
#[derive(Debug)]
pub struct ContentBodyStorage {
    pub value: String,
    pub representation: ContentRepresentation,
}

/// The body of a content entry.
#[derive(Debug)]
pub struct ContentBody {
    pub storage: ContentBodyStorage,
}

/// One page of results of a paged retrieval.
#[derive(Debug)]
pub struct PagedResult<DATA> {
    pub results: Vec<DATA>,
    pub start: usize,
    pub limit: usize,
    pub size: usize,
}

} // verus!
