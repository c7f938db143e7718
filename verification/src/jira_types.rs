//! The normalized form of a fetched issue. A raw issue arrives from a
//! tracker as provider-specific JSON; the process layer converts it into
//! these plain values before the assembly engine sees it. Each type has a
//! mathematical view used by all contracts: strings become character
//! sequences, vectors become sequences.

use vstd::prelude::*;

use crate::text::{clone_opt_string, clone_string_vec};

verus! {

/// A value found in the provider-specific custom-field bag, reduced to the
/// shapes the field extractor distinguishes.
#[derive(Debug)]
pub enum FieldValue {
    /// An explicit null.
    Null,
    /// A string value.
    Text(String),
    /// Any other JSON shape (number, boolean, array, object): present, but
    /// not deserializable into the string shape the extractor asks for.
    Other,
}

#[verifier::ext_equal]
pub enum FieldValueV {
    Null,
    Text(Seq<char>),
    Other,
}

impl View for FieldValue {
    type V = FieldValueV;

    open spec fn view(&self) -> FieldValueV {
        match *self {
            FieldValue::Null => FieldValueV::Null,
            FieldValue::Text(ref s) => FieldValueV::Text(s@),
            FieldValue::Other => FieldValueV::Other,
        }
    }
}

impl Clone for FieldValue {
    fn clone(&self) -> (r: Self)
        ensures
            r@ == self@,
    {
        match self {
            FieldValue::Null => FieldValue::Null,
            FieldValue::Text(s) => FieldValue::Text(s.clone()),
            FieldValue::Other => FieldValue::Other,
        }
    }
}

/// The view of an optional string.
pub open spec fn opt_view(o: Option<String>) -> Option<Seq<char>> {
    match o {
        Some(s) => Some(s@),
        None => None,
    }
}

/// One raw link descriptor on an issue: which side of the link the other
/// issue stands on, its key, and the link type's inward wording. Any of the
/// parts can be missing on the wire; a link missing what the classifier
/// needs produces no relation.
#[derive(Debug)]
pub struct RawLink {
    /// Key of the linked issue when it is on the inward side.
    pub inward_key: Option<String>,
    /// Key of the linked issue when it is on the outward side.
    pub outward_key: Option<String>,
    /// The inward description of the link type.
    pub type_inward: Option<String>,
}

#[verifier::ext_equal]
pub struct RawLinkV {
    pub inward_key: Option<Seq<char>>,
    pub outward_key: Option<Seq<char>>,
    pub type_inward: Option<Seq<char>>,
}

impl View for RawLink {
    type V = RawLinkV;

    open spec fn view(&self) -> RawLinkV {
        RawLinkV {
            inward_key: opt_view(self.inward_key),
            outward_key: opt_view(self.outward_key),
            type_inward: opt_view(self.type_inward),
        }
    }
}

impl Clone for RawLink {
    fn clone(&self) -> (r: Self)
        ensures
            r@ == self@,
    {
        RawLink {
            inward_key: clone_opt_string(&self.inward_key),
            outward_key: clone_opt_string(&self.outward_key),
            type_inward: clone_opt_string(&self.type_inward),
        }
    }
}

/// The view of a sequence of viewable values.
pub open spec fn seq_view<T: View>(s: Seq<T>) -> Seq<T::V> {
    s.map_values(|x: T| x@)
}

/// The view of a custom-field bag.
pub open spec fn bag_view(s: Seq<(String, FieldValue)>) -> Seq<(Seq<char>, FieldValueV)> {
    s.map_values(|p: (String, FieldValue)| (p.0@, p.1@))
}

/// The view of a sequence of strings.
pub open spec fn strs_view(s: Seq<String>) -> Seq<Seq<char>> {
    s.map_values(|x: String| x@)
}

/// Clones a vector of raw links, keeping the values.
pub fn clone_raw_links(v: &Vec<RawLink>) -> (r: Vec<RawLink>)
    ensures
        seq_view(r@) == seq_view(v@),
{
    let mut r: Vec<RawLink> = Vec::new();
    let mut i: usize = 0;
    while i < v.len()
        invariant
            i <= v@.len(),
            r@.len() == i,
            forall|j: int| 0 <= j < i ==> r@[j]@ == v@[j]@,
        decreases v@.len() - i,
    {
        r.push(v[i].clone());
        i += 1;
    }
    proof {
        assert(seq_view(r@) =~= seq_view(v@));
    }
    r
}

/// Clones a custom-field bag, keeping the values.
pub fn clone_field_bag(v: &Vec<(String, FieldValue)>) -> (r: Vec<(String, FieldValue)>)
    ensures
        bag_view(r@) == bag_view(v@),
{
    let mut r: Vec<(String, FieldValue)> = Vec::new();
    let mut i: usize = 0;
    while i < v.len()
        invariant
            i <= v@.len(),
            r@.len() == i,
            forall|j: int| 0 <= j < i ==> r@[j].0@ == v@[j].0@ && r@[j].1@ == v@[j].1@,
        decreases v@.len() - i,
    {
        let (k, fv) = &v[i];
        r.push((k.clone(), fv.clone()));
        i += 1;
    }
    proof {
        assert(bag_view(r@) =~= bag_view(v@));
    }
    r
}

/// The fields of a normalized issue that this report engine reads.
#[derive(Debug)]
pub struct IssueBeanFields {
    pub assignee_display_name: Option<String>,
    pub assignee_active: Option<bool>,
    pub creator_display_name: Option<String>,
    pub created: String,
    pub description: Option<String>,
    pub issuelinks: Option<Vec<RawLink>>,
    pub issuetype_name: Option<String>,
    pub labels: Option<Vec<String>>,
    pub status_name: Option<String>,
    pub summary: String,
    /// The provider-specific custom-field bag, keyed by field id.
    pub custom_fields: Vec<(String, FieldValue)>,
}

#[verifier::ext_equal]
pub struct IssueBeanFieldsV {
    pub assignee_display_name: Option<Seq<char>>,
    pub assignee_active: Option<bool>,
    pub creator_display_name: Option<Seq<char>>,
    pub created: Seq<char>,
    pub description: Option<Seq<char>>,
    pub issuelinks: Option<Seq<RawLinkV>>,
    pub issuetype_name: Option<Seq<char>>,
    pub labels: Option<Seq<Seq<char>>>,
    pub status_name: Option<Seq<char>>,
    pub summary: Seq<char>,
    pub custom_fields: Seq<(Seq<char>, FieldValueV)>,
}

impl View for IssueBeanFields {
    type V = IssueBeanFieldsV;

    open spec fn view(&self) -> IssueBeanFieldsV {
        IssueBeanFieldsV {
            assignee_display_name: opt_view(self.assignee_display_name),
            assignee_active: self.assignee_active,
            creator_display_name: opt_view(self.creator_display_name),
            created: self.created@,
            description: opt_view(self.description),
            issuelinks: match self.issuelinks {
                Some(ref ls) => Some(seq_view(ls@)),
                None => None,
            },
            issuetype_name: opt_view(self.issuetype_name),
            labels: match self.labels {
                Some(ref ls) => Some(strs_view(ls@)),
                None => None,
            },
            status_name: opt_view(self.status_name),
            summary: self.summary@,
            custom_fields: bag_view(self.custom_fields@),
        }
    }
}

impl Clone for IssueBeanFields {
    fn clone(&self) -> (r: Self)
        ensures
            r@ == self@,
    {
        let r = IssueBeanFields {
            assignee_display_name: clone_opt_string(&self.assignee_display_name),
            assignee_active: match self.assignee_active {
                Some(b) => Some(b),
                None => None,
            },
            creator_display_name: clone_opt_string(&self.creator_display_name),
            created: self.created.clone(),
            description: clone_opt_string(&self.description),
            issuelinks: match &self.issuelinks {
                Some(ls) => Some(clone_raw_links(ls)),
                None => None,
            },
            issuetype_name: clone_opt_string(&self.issuetype_name),
            labels: match &self.labels {
                Some(ls) => Some(clone_string_vec(ls)),
                None => None,
            },
            status_name: clone_opt_string(&self.status_name),
            summary: self.summary.clone(),
            custom_fields: clone_field_bag(&self.custom_fields),
        };
        proof {
            assert(r@ =~= self@);
        }
        r
    }
}

/// A normalized issue.
#[derive(Debug)]
pub struct IssueBean {
    pub fields: IssueBeanFields,
    /// The issue's numeric id at its instance.
    pub id: String,
    /// The issue's key at its instance.
    pub key: String,
}

#[verifier::ext_equal]
pub struct IssueBeanV {
    pub fields: IssueBeanFieldsV,
    pub id: Seq<char>,
    pub key: Seq<char>,
}

impl View for IssueBean {
    type V = IssueBeanV;

    open spec fn view(&self) -> IssueBeanV {
        IssueBeanV { fields: self.fields@, id: self.id@, key: self.key@ }
    }
}

impl Clone for IssueBean {
    fn clone(&self) -> (r: Self)
        ensures
            r@ == self@,
    {
        let r = IssueBean {
            fields: self.fields.clone(),
            id: self.id.clone(),
            key: self.key.clone(),
        };
        proof {
            assert(r@ =~= self@);
        }
        r
    }
}

} // verus!
