//! The assembled report data: the cross-instance issue identity, the
//! idempotent issue store, the de-duplicated relation set, and the
//! bounded-depth assembly engine that fills them.

use vstd::prelude::*;

use crate::jira::{pairs_view, JiraServer, JiraServerV};
use crate::jira_types::{seq_view, RawLink, RawLinkV};
use crate::report::{
    spec_classify, classify_term, ForeignRelation, ForeignRelationV, ForeignRelationSubject,
    RelationKind, ReportIssue, ReportIssueV,
};
use crate::text::{chars_to_string, str_eq};
use vstd::string::StrSliceExecFns;

verus! {

/// The identity of an issue across all instances: the instance's endpoint
/// together with the issue's key. Never assume two issues with the same key
/// on different instances are the same entity.
#[derive(Debug)]
pub struct IssueID {
    /// The endpoint of the instance the issue lives on.
    pub jira: String,
    /// The issue's key at that instance.
    pub issue: String,
}

/// The mathematical form of an identity: endpoint and key as character
/// sequences.
pub type IdV = (Seq<char>, Seq<char>);

impl View for IssueID {
    type V = IdV;

    open spec fn view(&self) -> IdV {
        (self.jira@, self.issue@)
    }
}

impl Clone for IssueID {
    fn clone(&self) -> (r: Self)
        ensures
            r@ == self@,
    {
        IssueID { jira: self.jira.clone(), issue: self.issue.clone() }
    }
}

/// The identity of a report issue.
pub open spec fn spec_id_of(issue: ReportIssueV) -> IdV {
    (issue.jira.base_url, issue.issue.key)
}

/// The identity a foreign-relation endpoint names.
pub open spec fn spec_id_of_subject(s: crate::report::ForeignRelationSubjectV) -> IdV {
    (s.jira.base_url, s.issue)
}

/// Replacement applied to every character of an identity rendering: URL
/// separators and punctuation collapse to underscores.
pub open spec fn sanitize_char(c: char) -> char {
    if c == ':' || c == '/' || c == '-' || c == '.' {
        '_'
    } else {
        c
    }
}

/// The stable rendering of an identity: endpoint and key joined by a slash,
/// with separators and punctuation collapsed to underscores.
pub open spec fn spec_ident_string(id: IdV) -> Seq<char> {
    (id.0 + seq!['/'] + id.1).map_values(|c: char| sanitize_char(c))
}

/// Applies the identity-rendering character replacement.
fn sanitize(c: char) -> (r: char)
    ensures
        r == sanitize_char(c),
{
    if c == ':' || c == '/' || c == '-' || c == '.' {
        '_'
    } else {
        c
    }
}

impl IssueID {
    /// The identity of a report issue.
    pub fn of_issue(issue: &ReportIssue) -> (r: Self)
        ensures
            r@ == spec_id_of(issue@),
    {
        IssueID { jira: issue.jira.base_url.clone(), issue: issue.issue.key.clone() }
    }

    /// The identity a foreign-relation endpoint names.
    pub fn of_relation_subject(val: &ForeignRelationSubject) -> (r: Self)
        ensures
            r@ == spec_id_of_subject(val@),
    {
        IssueID { jira: val.jira.base_url.clone(), issue: val.issue.clone() }
    }

    /// The identity of the given key on the given instance.
    pub fn new(jira: &JiraServer, key: &str) -> (r: Self)
        ensures
            r@ == (jira@.base_url, key@),
    {
        IssueID { jira: jira.base_url.clone(), issue: key.to_owned() }
    }

    /// Structural equality of identities.
    pub fn eq_id(&self, other: &IssueID) -> (b: bool)
        ensures
            b == (self@ == other@),
    {
        let r = str_eq(self.jira.as_str(), other.jira.as_str()) && str_eq(
            self.issue.as_str(),
            other.issue.as_str(),
        );
        proof {
            if self@.0 == other@.0 && self@.1 == other@.1 {
                assert(self@ == other@);
            }
        }
        r
    }

    /// A deterministic, symbol-safe rendering of this identity, usable as a
    /// graph-node name.
    pub fn as_string(&self) -> (r: String)
        ensures
            r@ == spec_ident_string(self@),
    {
        let ghost whole: Seq<char> = self@.0 + seq!['/'] + self@.1;
        let mut out: Vec<char> = Vec::new();
        let jira = self.jira.as_str();
        let issue = self.issue.as_str();
        let n0 = jira.unicode_len();
        let mut i: usize = 0;
        while i < n0
            invariant
                n0 == jira@.len(),
                i <= n0,
                out@.len() == i,
                forall|j: int| 0 <= j < i ==> out@[j] == sanitize_char(jira@[j]),
            decreases n0 - i,
        {
            out.push(sanitize(jira.get_char(i)));
            i += 1;
        }
        out.push('_');
        let n1 = issue.unicode_len();
        let mut k: usize = 0;
        while k < n1
            invariant
                n0 == jira@.len(),
                n1 == issue@.len(),
                k <= n1,
                out@.len() == n0 + 1 + k,
                forall|j: int| 0 <= j < n0 ==> out@[j] == sanitize_char(jira@[j]),
                out@[n0 as int] == '_',
                forall|j: int| 0 <= j < k ==> out@[n0 + 1 + j] == sanitize_char(issue@[j]),
            decreases n1 - k,
        {
            out.push(sanitize(issue.get_char(k)));
            k += 1;
        }
        proof {
            assert forall|j: int| 0 <= j < whole.len() implies out@[j] == sanitize_char(
                whole[j],
            ) by {
                if j < n0 {
                    assert(whole[j] == jira@[j]);
                } else if j == n0 {
                    assert(whole[j] == '/');
                } else {
                    assert(whole[j] == issue@[j - n0 - 1]);
                }
            }
            assert(out@ =~= spec_ident_string(self@));
        }
        chars_to_string(&out)
    }
}

/// The views of the records a store holds, in insertion order.
pub open spec fn issues_view(s: Seq<ReportIssue>) -> Seq<ReportIssueV> {
    s.map_values(|r: ReportIssue| r@)
}

/// Whether some record in the sequence carries the identity.
pub open spec fn spec_contains_id(s: Seq<ReportIssueV>, id: IdV) -> bool {
    exists|i: int| 0 <= i < s.len() && spec_id_of(s[i]) == id
}

/// The first record carrying the identity, if any.
pub open spec fn spec_find(s: Seq<ReportIssueV>, id: IdV) -> Option<ReportIssueV>
    decreases s.len(),
{
    if s.len() == 0 {
        None
    } else if spec_id_of(s[0]) == id {
        Some(s[0])
    } else {
        spec_find(s.drop_first(), id)
    }
}

/// First-write-wins insertion: a record whose identity is already present
/// leaves the store unchanged.
pub open spec fn spec_insert1(s: Seq<ReportIssueV>, r: ReportIssueV) -> Seq<ReportIssueV> {
    if spec_contains_id(s, spec_id_of(r)) {
        s
    } else {
        s.push(r)
    }
}

/// Repeated first-write-wins insertion, in order.
pub open spec fn spec_insert_all(s: Seq<ReportIssueV>, items: Seq<ReportIssueV>) -> Seq<
    ReportIssueV,
>
    decreases items.len(),
{
    if items.len() == 0 {
        s
    } else {
        spec_insert_all(spec_insert1(s, items[0]), items.drop_first())
    }
}

/// No two records of the sequence share an identity.
pub open spec fn ids_distinct(s: Seq<ReportIssueV>) -> bool {
    forall|i: int, j: int|
        0 <= i < j < s.len() ==> spec_id_of(s[i]) != spec_id_of(s[j])
}

/// `spec_find` yields a record exactly when the identity is present.
pub proof fn lemma_find_some_iff_contains(s: Seq<ReportIssueV>, id: IdV)
    ensures
        (spec_find(s, id) is Some) == spec_contains_id(s, id),
        spec_find(s, id) matches Some(r) ==> spec_id_of(r) == id && s.contains(r),
    decreases s.len(),
{
    if s.len() > 0 {
        lemma_find_some_iff_contains(s.drop_first(), id);
        if spec_id_of(s[0]) != id {
            if spec_contains_id(s, id) {
                let i = choose|i: int| 0 <= i < s.len() && spec_id_of(s[i]) == id;
                assert(s.drop_first()[i - 1] == s[i]);
                assert(spec_contains_id(s.drop_first(), id));
            }
            if spec_contains_id(s.drop_first(), id) {
                let i = choose|i: int|
                    0 <= i < s.drop_first().len() && spec_id_of(s.drop_first()[i]) == id;
                assert(s[i + 1] == s.drop_first()[i]);
            }
            match spec_find(s.drop_first(), id) {
                Some(r) => {
                    assert(s.drop_first().contains(r));
                    let i = choose|i: int|
                        0 <= i < s.drop_first().len() && s.drop_first()[i] == r;
                    assert(s[i + 1] == r);
                },
                None => {},
            }
        }
    }
}

/// On a store with distinct identities, `spec_find` after an insertion of a
/// fresh record finds exactly that record; a duplicate-identity insertion
/// changes nothing.
pub proof fn lemma_find_skip(s: Seq<ReportIssueV>, id: IdV, k: int)
    requires
        0 <= k <= s.len(),
        forall|j: int| 0 <= j < k ==> spec_id_of(s[j]) != id,
    ensures
        spec_find(s, id) == spec_find(s.skip(k), id),
    decreases k,
{
    if k > 0 {
        assert(s.drop_first() =~= s.skip(1));
        assert forall|j: int| 0 <= j < k - 1 implies spec_id_of(s.skip(1)[j]) != id by {
            assert(s.skip(1)[j] == s[j + 1]);
        }
        lemma_find_skip(s.skip(1), id, k - 1);
        assert(s.skip(1).skip(k - 1) =~= s.skip(k));
        assert(spec_id_of(s[0]) != id);
        assert(spec_find(s, id) == spec_find(s.drop_first(), id));
    } else {
        assert(s.skip(0) =~= s);
    }
}

/// The issue store: a mapping from identity to the record first inserted
/// under it. Lookup is pure; insertion keeps the existing record for an
/// identity already present, so repeated insertion during traversal leaves
/// the store stable.
#[derive(Debug)]
pub struct IssuesList {
    pub issues: Vec<ReportIssue>,
}

impl View for IssuesList {
    type V = Seq<ReportIssueV>;

    open spec fn view(&self) -> Seq<ReportIssueV> {
        issues_view(self.issues@)
    }
}

impl Clone for IssuesList {
    fn clone(&self) -> (r: Self)
        ensures
            r@ == self@,
    {
        let mut v: Vec<ReportIssue> = Vec::new();
        let mut i: usize = 0;
        while i < self.issues.len()
            invariant
                i <= self.issues@.len(),
                v@.len() == i,
                forall|j: int| 0 <= j < i ==> v@[j]@ == self.issues@[j]@,
            decreases self.issues@.len() - i,
        {
            v.push(self.issues[i].clone());
            i += 1;
        }
        let r = IssuesList { issues: v };
        proof {
            assert(r@ =~= self@);
        }
        r
    }
}

impl IssuesList {
    /// Every identity names at most one record.
    pub open spec fn wf(&self) -> bool {
        ids_distinct(self@)
    }

    /// An empty store.
    pub fn new() -> (r: Self)
        ensures
            r@ == Seq::<ReportIssueV>::empty(),
            r.wf(),
    {
        let r = IssuesList { issues: Vec::new() };
        proof {
            assert(r@ =~= Seq::<ReportIssueV>::empty());
        }
        r
    }

    /// Index of the record with the given identity, if present.
    fn find_index(&self, jira_base: &str, key: &str) -> (r: Option<usize>)
        ensures
            match r {
                Some(i) => i < self@.len() && spec_id_of(self@[i as int]) == (jira_base@, key@)
                    && forall|j: int|
                    0 <= j < i ==> spec_id_of(self@[j]) != (jira_base@, key@),
                None => !spec_contains_id(self@, (jira_base@, key@)),
            },
    {
        let mut i: usize = 0;
        while i < self.issues.len()
            invariant
                i <= self@.len(),
                forall|j: int| 0 <= j < i ==> spec_id_of(self@[j]) != (jira_base@, key@),
            decreases self@.len() - i,
        {
            let rec = &self.issues[i];
            if str_eq(rec.jira.base_url.as_str(), jira_base) && str_eq(
                rec.issue.key.as_str(),
                key,
            ) {
                return Some(i);
            }
            i += 1;
        }
        None
    }

    /// Pure lookup by instance and key: the record first inserted under the
    /// identity, or nothing.
    pub fn get(&self, jira: &JiraServer, key: &str) -> (r: Option<&ReportIssue>)
        ensures
            match r {
                Some(x) => spec_find(self@, (jira@.base_url, key@)) == Some(x@),
                None => !spec_contains_id(self@, (jira@.base_url, key@)),
            },
    {
        match self.find_index(jira.base_url.as_str(), key) {
            Some(i) => {
                proof {
                    lemma_find_skip(self@, (jira@.base_url, key@), i as int);
                    assert(self@.skip(i as int)[0] == self@[i as int]);
                }
                Some(&self.issues[i])
            },
            None => None,
        }
    }

    /// Whether a record with the identity is present.
    pub fn contains_id(&self, id: &IssueID) -> (b: bool)
        ensures
            b == spec_contains_id(self@, id@),
    {
        match self.find_index(id.jira.as_str(), id.issue.as_str()) {
            Some(_) => true,
            None => false,
        }
    }

    /// First-write-wins insertion: if the record's identity is already
    /// present, the store is unchanged — callers must not assume refreshed
    /// data on re-insertion.
    pub fn insert(&mut self, issue: &ReportIssue)
        requires
            old(self).wf(),
        ensures
            final(self).wf(),
            final(self)@ == spec_insert1(old(self)@, issue@),
    {
        let id = IssueID::of_issue(issue);
        match self.find_index(id.jira.as_str(), id.issue.as_str()) {
            Some(_) => {
                proof {
                    assert(final(self)@ =~= spec_insert1(old(self)@, issue@));
                }
            },
            None => {
                self.issues.push(issue.clone());
                proof {
                    assert(final(self)@ =~= old(self)@.push(issue@));
                    assert(final(self)@ == spec_insert1(old(self)@, issue@));
                    assert forall|i: int, j: int|
                        0 <= i < j < final(self)@.len() implies spec_id_of(final(self)@[i])
                        != spec_id_of(final(self)@[j]) by {
                        if j < final(self)@.len() - 1 {
                            assert(final(self)@[i] == old(self)@[i]);
                            assert(final(self)@[j] == old(self)@[j]);
                        } else {
                            assert(final(self)@[i] == old(self)@[i]);
                            assert(!spec_contains_id(old(self)@, spec_id_of(issue@)));
                        }
                    }
                }
            },
        }
    }

    /// A store seeded from a slice of records, inserted in order with
    /// first-write-wins semantics.
    pub fn of_slice(slice: &[ReportIssue]) -> (r: Self)
        ensures
            r.wf(),
            r@ == spec_insert_all(Seq::<ReportIssueV>::empty(), issues_view(slice@)),
    {
        let mut r = IssuesList::new();
        let mut i: usize = 0;
        while i < slice.len()
            invariant
                i <= slice@.len(),
                r.wf(),
                r@ == spec_insert_all(
                    Seq::<ReportIssueV>::empty(),
                    issues_view(slice@).take(i as int),
                ),
            decreases slice@.len() - i,
        {
            proof {
                lemma_insert_all_snoc(
                    Seq::<ReportIssueV>::empty(),
                    issues_view(slice@).take(i as int),
                    slice@[i as int]@,
                );
                assert(issues_view(slice@).take(i as int).push(slice@[i as int]@) =~= issues_view(
                    slice@,
                ).take(i as int + 1));
            }
            r.insert(&slice[i]);
            i += 1;
        }
        proof {
            assert(issues_view(slice@).take(slice@.len() as int) =~= issues_view(slice@));
        }
        r
    }

    /// All records, in insertion order.
    pub fn all(&self) -> (r: &Vec<ReportIssue>)
        ensures
            issues_view(r@) == self@,
    {
        &self.issues
    }
}

/// One normalized relation of the assembled graph.
#[derive(Debug)]
pub struct Relation {
    pub from: IssueID,
    pub to: IssueID,
    pub kind: RelationKind,
}

/// The mathematical form of a relation: the two identities and the kind.
pub type RelV = (IdV, IdV, RelationKind);

impl View for Relation {
    type V = RelV;

    open spec fn view(&self) -> RelV {
        (self.from@, self.to@, self.kind)
    }
}

impl Clone for Relation {
    fn clone(&self) -> (r: Self)
        ensures
            r@ == self@,
    {
        Relation { from: self.from.clone(), to: self.to.clone(), kind: self.kind }
    }
}

/// The views of the relations a set holds, in insertion order.
pub open spec fn rels_view(s: Seq<Relation>) -> Seq<RelV> {
    s.map_values(|r: Relation| r@)
}

/// Value-deduplicated insertion: a triple already present leaves the set
/// unchanged.
pub open spec fn spec_rel_insert(s: Seq<RelV>, r: RelV) -> Seq<RelV> {
    if s.contains(r) {
        s
    } else {
        s.push(r)
    }
}

/// The relation set: relations keyed by their value — instance, key and
/// kind — so a duplicate triple collapses to one entry.
#[derive(Debug)]
pub struct RelationSet {
    pub relations: Vec<Relation>,
}

impl View for RelationSet {
    type V = Seq<RelV>;

    open spec fn view(&self) -> Seq<RelV> {
        rels_view(self.relations@)
    }
}

impl RelationSet {
    /// No triple occurs twice.
    pub open spec fn wf(&self) -> bool {
        self@.no_duplicates()
    }

    /// An empty relation set.
    pub fn new() -> (r: Self)
        ensures
            r@ == Seq::<RelV>::empty(),
            r.wf(),
    {
        let r = RelationSet { relations: Vec::new() };
        proof {
            assert(r@ =~= Seq::<RelV>::empty());
        }
        r
    }

    /// Whether the set holds a relation of this value.
    pub fn contains(&self, rel: &Relation) -> (b: bool)
        ensures
            b == self@.contains(rel@),
    {
        let mut i: usize = 0;
        while i < self.relations.len()
            invariant
                i <= self@.len(),
                forall|j: int| 0 <= j < i ==> self@[j] != rel@,
            decreases self@.len() - i,
        {
            let c = &self.relations[i];
            if c.from.eq_id(&rel.from) && c.to.eq_id(&rel.to) && c.kind == rel.kind {
                assert(self@[i as int] == rel@);
                return true;
            }
            i += 1;
        }
        false
    }

    /// The number of distinct relations.
    pub fn len(&self) -> (n: usize)
        ensures
            n == self@.len(),
    {
        self.relations.len()
    }

    /// Value-deduplicated insertion.
    pub fn insert(&mut self, rel: Relation)
        requires
            old(self).wf(),
        ensures
            final(self).wf(),
            final(self)@ == spec_rel_insert(old(self)@, rel@),
    {
        if !self.contains(&rel) {
            proof {
                assert(forall|j: int|
                    0 <= j < self@.len() ==> self@[j] != rel@);
            }
            self.relations.push(rel);
            proof {
                assert(final(self)@ =~= old(self)@.push(rel@));
            }
        } else {
            proof {
                assert(final(self)@ =~= spec_rel_insert(old(self)@, rel@));
            }
        }
    }
}

/// One link candidate, ready for classification: the instance and key of
/// the linked issue, the resolved relation wording, and whether the pair
/// `(issue, other)` is to be read swapped.
pub type LinkV = (JiraServerV, Seq<char>, Seq<char>, bool);

/// The views of a list of exec link candidates.
pub open spec fn links_view(s: Seq<(JiraServer, String, String, bool)>) -> Seq<LinkV> {
    s.map_values(|l: (JiraServer, String, String, bool)| (l.0@, l.1@, l.2@, l.3))
}

/// The views of the declared foreign relations.
pub open spec fn foreign_view(s: Seq<ForeignRelation>) -> Seq<ForeignRelationV> {
    s.map_values(|f: ForeignRelation| f@)
}

/// Resolution of a raw wording through a vocabulary remap: the second half
/// of the first matching pair, or the wording unchanged.
pub open spec fn spec_remap(map: Seq<(Seq<char>, Seq<char>)>, term: Seq<char>) -> Seq<char>
    decreases map.len(),
{
    if map.len() == 0 {
        term
    } else if map[0].0 == term {
        map[0].1
    } else {
        spec_remap(map.drop_first(), term)
    }
}

/// Resolves a raw relation wording through an instance's vocabulary remap.
pub fn resolve_term(map: &Vec<(String, String)>, term: &str) -> (r: String)
    ensures
        r@ == spec_remap(pairs_view(map@), term@),
{
    proof {
        assert(pairs_view(map@).skip(0) =~= pairs_view(map@));
    }
    let mut i: usize = 0;
    while i < map.len()
        invariant
            i <= map@.len(),
            spec_remap(pairs_view(map@), term@) == spec_remap(
                pairs_view(map@).skip(i as int),
                term@,
            ),
        decreases map@.len() - i,
    {
        let (k, v) = &map[i];
        proof {
            assert(pairs_view(map@).skip(i as int)[0] == pairs_view(map@)[i as int]);
        }
        if str_eq(k.as_str(), term) {
            return v.clone();
        }
        proof {
            assert(pairs_view(map@).skip(i as int).drop_first() =~= pairs_view(map@).skip(
                i as int + 1,
            ));
        }
        i += 1;
    }
    proof {
        assert(pairs_view(map@).skip(i as int) =~= Seq::<(Seq<char>, Seq<char>)>::empty());
    }
    term.to_owned()
}

/// What one raw link descriptor contributes: the linked issue is taken from
/// the inward side when present, else from the outward side (then read
/// swapped); the wording is the link type's inward description, resolved
/// through the owning issue's vocabulary remap. A link missing its key or
/// wording contributes nothing.
pub open spec fn spec_issue_link(issue: ReportIssueV, link: RawLinkV) -> Option<LinkV> {
    match link.inward_key {
        None => match (link.outward_key, link.type_inward) {
            (Some(key), Some(t)) => Some(
                (issue.jira, key, spec_remap(issue.jira.relations_map, t), true),
            ),
            _ => None,
        },
        Some(key) => match link.type_inward {
            Some(t) => Some((issue.jira, key, spec_remap(issue.jira.relations_map, t), false)),
            None => None,
        },
    }
}

/// The candidates contributed by a list of raw links, in order.
pub open spec fn spec_native_links(issue: ReportIssueV, links: Seq<RawLinkV>) -> Seq<LinkV>
    decreases links.len(),
{
    if links.len() == 0 {
        Seq::empty()
    } else {
        (match spec_issue_link(issue, links[0]) {
            Some(l) => seq![l],
            None => Seq::empty(),
        }) + spec_native_links(issue, links.drop_first())
    }
}

/// The candidates one declared foreign relation contributes to the issue
/// with the given identity: when the issue is the `from` endpoint, a link
/// to the `to` endpoint under the `to` wording, and symmetrically; both
/// read unswapped.
pub open spec fn spec_foreign_links_of(fr: ForeignRelationV, id: IdV) -> Seq<LinkV> {
    (if spec_id_of_subject(fr.from) == id {
        seq![(fr.to.jira, fr.to.issue, fr.to.kind, false)]
    } else {
        Seq::empty()
    }) + (if spec_id_of_subject(fr.to) == id {
        seq![(fr.from.jira, fr.from.issue, fr.from.kind, false)]
    } else {
        Seq::empty()
    })
}

/// The candidates all declared foreign relations contribute, in order.
pub open spec fn spec_foreign_links(foreign: Seq<ForeignRelationV>, id: IdV) -> Seq<LinkV>
    decreases foreign.len(),
{
    if foreign.len() == 0 {
        Seq::empty()
    } else {
        spec_foreign_links_of(foreign[0], id) + spec_foreign_links(foreign.drop_first(), id)
    }
}

/// Every link candidate of an issue: the provider's own links first, then
/// the declared foreign relations that name the issue.
pub open spec fn spec_issue_links(foreign: Seq<ForeignRelationV>, issue: ReportIssueV) -> Seq<
    LinkV,
> {
    (match issue.issue.fields.issuelinks {
        Some(ls) => spec_native_links(issue, ls),
        None => Seq::empty(),
    }) + spec_foreign_links(foreign, spec_id_of(issue))
}

/// Appending a raw link appends its contribution.
pub proof fn lemma_native_links_snoc(issue: ReportIssueV, links: Seq<RawLinkV>, x: RawLinkV)
    ensures
        spec_native_links(issue, links.push(x)) == spec_native_links(issue, links) + (
        match spec_issue_link(issue, x) {
            Some(l) => seq![l],
            None => Seq::<LinkV>::empty(),
        }),
    decreases links.len(),
{
    let tail = (match spec_issue_link(issue, x) {
        Some(l) => seq![l],
        None => Seq::<LinkV>::empty(),
    });
    if links.len() == 0 {
        assert(links.push(x)[0] == x);
        assert(links.push(x).drop_first() =~= Seq::<RawLinkV>::empty());
        assert(spec_native_links(issue, Seq::<RawLinkV>::empty()) == Seq::<LinkV>::empty());
        assert(spec_native_links(issue, links.push(x)) =~= Seq::<LinkV>::empty() + tail);
        assert(spec_native_links(issue, links) + tail =~= Seq::<LinkV>::empty() + tail);
    } else {
        assert(links.push(x)[0] == links[0]);
        assert(links.push(x).drop_first() =~= links.drop_first().push(x));
        lemma_native_links_snoc(issue, links.drop_first(), x);
        let head = (match spec_issue_link(issue, links[0]) {
            Some(l) => seq![l],
            None => Seq::<LinkV>::empty(),
        });
        assert(head + (spec_native_links(issue, links.drop_first()) + tail) =~= (head
            + spec_native_links(issue, links.drop_first())) + tail);
    }
}

/// Appending a foreign relation appends its contribution.
pub proof fn lemma_foreign_links_snoc(foreign: Seq<ForeignRelationV>, id: IdV, x: ForeignRelationV)
    ensures
        spec_foreign_links(foreign.push(x), id) == spec_foreign_links(foreign, id)
            + spec_foreign_links_of(x, id),
    decreases foreign.len(),
{
    if foreign.len() == 0 {
        assert(foreign.push(x)[0] == x);
        assert(foreign.push(x).drop_first() =~= Seq::<ForeignRelationV>::empty());
        assert(spec_foreign_links(Seq::<ForeignRelationV>::empty(), id) == Seq::<LinkV>::empty());
        assert(spec_foreign_links(foreign.push(x), id) =~= spec_foreign_links_of(x, id));
        assert(spec_foreign_links(foreign, id) + spec_foreign_links_of(x, id)
            =~= spec_foreign_links_of(x, id));
    } else {
        assert(foreign.push(x)[0] == foreign[0]);
        assert(foreign.push(x).drop_first() =~= foreign.drop_first().push(x));
        lemma_foreign_links_snoc(foreign.drop_first(), id, x);
        assert(spec_foreign_links_of(foreign[0], id) + (spec_foreign_links(
            foreign.drop_first(),
            id,
        ) + spec_foreign_links_of(x, id)) =~= (spec_foreign_links_of(foreign[0], id)
            + spec_foreign_links(foreign.drop_first(), id)) + spec_foreign_links_of(x, id));
    }
}

/// The assembled graph handed to the report renderers: every discovered
/// issue, the epic index, and the de-duplicated relation set.
#[derive(Debug)]
pub struct ReportData {
    pub issues: IssuesList,
    pub epics: IssuesList,
    pub relations: RelationSet,
}

impl ReportData {
    /// What one raw link of an issue contributes as a link candidate.
    pub fn issue_link(issue: &ReportIssue, link: &RawLink) -> (r: Option<
        (JiraServer, String, String, bool),
    >)
        ensures
            match r {
                Some(l) => spec_issue_link(issue@, link@) == Some((l.0@, l.1@, l.2@, l.3)),
                None => spec_issue_link(issue@, link@) is None,
            },
    {
        match &link.inward_key {
            None => {
                let key = match &link.outward_key {
                    None => {
                        return None;
                    },
                    Some(v) => v,
                };
                let t = match &link.type_inward {
                    None => {
                        return None;
                    },
                    Some(v) => v,
                };
                let kind = resolve_term(&issue.jira.relations_map, t.as_str());
                Some((issue.jira.clone(), key.clone(), kind, true))
            },
            Some(key) => {
                let t = match &link.type_inward {
                    None => {
                        return None;
                    },
                    Some(v) => v,
                };
                let kind = resolve_term(&issue.jira.relations_map, t.as_str());
                Some((issue.jira.clone(), key.clone(), kind, false))
            },
        }
    }

    /// Every link candidate of an issue, native links first, then the
    /// declared foreign relations that name it.
    pub fn issue_links(foreign_relations: &[ForeignRelation], issue: &ReportIssue) -> (r: Vec<
        (JiraServer, String, String, bool),
    >)
        ensures
            links_view(r@) == spec_issue_links(foreign_view(foreign_relations@), issue@),
    {
        let mut r: Vec<(JiraServer, String, String, bool)> = Vec::new();
        match &issue.issue.fields.issuelinks {
            None => {},
            Some(ls) => {
                let mut i: usize = 0;
                while i < ls.len()
                    invariant
                        i <= ls@.len(),
                        issue@.issue.fields.issuelinks == Some(seq_view(ls@)),
                        links_view(r@) =~= spec_native_links(
                            issue@,
                            seq_view(ls@).take(i as int),
                        ),
                    decreases ls@.len() - i,
                {
                    proof {
                        lemma_native_links_snoc(
                            issue@,
                            seq_view(ls@).take(i as int),
                            seq_view(ls@)[i as int],
                        );
                        assert(seq_view(ls@).take(i as int).push(seq_view(ls@)[i as int])
                            =~= seq_view(ls@).take(i as int + 1));
                    }
                    match Self::issue_link(issue, &ls[i]) {
                        Some(l) => {
                            r.push(l);
                            proof {
                                assert(links_view(r@) =~= spec_native_links(
                                    issue@,
                                    seq_view(ls@).take(i as int + 1),
                                ));
                            }
                        },
                        None => {
                            proof {
                                assert(links_view(r@) =~= spec_native_links(
                                    issue@,
                                    seq_view(ls@).take(i as int + 1),
                                ));
                            }
                        },
                    }
                    i += 1;
                }
                proof {
                    assert(seq_view(ls@).take(ls@.len() as int) =~= seq_view(ls@));
                }
            },
        }
        let ghost native: Seq<LinkV> = links_view(r@);
        let issue_id = IssueID::of_issue(issue);
        let mut i: usize = 0;
        while i < foreign_relations.len()
            invariant
                i <= foreign_relations@.len(),
                issue_id@ == spec_id_of(issue@),
                links_view(r@) =~= native + spec_foreign_links(
                    foreign_view(foreign_relations@).take(i as int),
                    spec_id_of(issue@),
                ),
            decreases foreign_relations@.len() - i,
        {
            proof {
                lemma_foreign_links_snoc(
                    foreign_view(foreign_relations@).take(i as int),
                    spec_id_of(issue@),
                    foreign_view(foreign_relations@)[i as int],
                );
                assert(foreign_view(foreign_relations@).take(i as int).push(
                    foreign_view(foreign_relations@)[i as int],
                ) =~= foreign_view(foreign_relations@).take(i as int + 1));
            }
            let fr = &foreign_relations[i];
            let ghost frv = foreign_view(foreign_relations@)[i as int];
            let ghost fr_links = spec_foreign_links_of(frv, spec_id_of(issue@));
            let ghost prev = links_view(r@);
            proof {
                assert(frv == fr@);
            }
            let from_id = IssueID::of_relation_subject(&fr.from);
            let to_id = IssueID::of_relation_subject(&fr.to);
            if from_id.eq_id(&issue_id) {
                r.push((fr.to.jira.clone(), fr.to.issue.clone(), fr.to.kind.clone(), false));
                proof {
                    assert(links_view(r@) =~= prev.push(
                        (frv.to.jira, frv.to.issue, frv.to.kind, false),
                    ));
                }
            }
            let ghost mid = links_view(r@);
            if to_id.eq_id(&issue_id) {
                r.push((fr.from.jira.clone(), fr.from.issue.clone(), fr.from.kind.clone(), false));
                proof {
                    assert(links_view(r@) =~= mid.push(
                        (frv.from.jira, frv.from.issue, frv.from.kind, false),
                    ));
                }
            }
            proof {
                assert(links_view(r@) =~= prev + fr_links);
                assert(links_view(r@) =~= native + spec_foreign_links(
                    foreign_view(foreign_relations@).take(i as int + 1),
                    spec_id_of(issue@),
                ));
            }
            i += 1;
        }
        proof {
            assert(foreign_view(foreign_relations@).take(foreign_relations@.len() as int)
                =~= foreign_view(foreign_relations@));
            assert(links_view(r@) =~= spec_issue_links(
                foreign_view(foreign_relations@),
                issue@,
            ));
        }
        r
    }
}

/// Pushing an element onto a sequence adds it to the sequence's set.
pub proof fn lemma_push_to_set<A>(s: Seq<A>, x: A)
    ensures
        s.push(x).to_set() == s.to_set().insert(x),
{
    assert forall|y: A| s.push(x).to_set().contains(y) implies s.to_set().insert(x).contains(
        y,
    ) by {
        let k = choose|k: int| 0 <= k < s.push(x).len() && s.push(x)[k] == y;
        if k < s.len() {
            assert(s[k] == y);
        }
    }
    assert forall|y: A| s.to_set().insert(x).contains(y) implies s.push(x).to_set().contains(
        y,
    ) by {
        if y == x {
            assert(s.push(x)[s.len() as int] == y);
        } else {
            let k = choose|k: int| 0 <= k < s.len() && s[k] == y;
            assert(s.push(x)[k] == y);
        }
    }
    assert(s.push(x).to_set() =~= s.to_set().insert(x));
}

/// The relation one classified link candidate produces, if its wording is
/// recognized: the fixed table gives the kind and whether to swap, the
/// candidate's own flag says from which side the pair is read.
pub open spec fn spec_link_relation(issue: ReportIssueV, l: LinkV) -> Option<RelV> {
    match spec_classify(l.2) {
        None => None,
        Some((kind, table_rev)) => {
            let this_id = spec_id_of(issue);
            let other_id = (l.0.base_url, l.1);
            let a = if l.3 {
                other_id
            } else {
                this_id
            };
            let b = if l.3 {
                this_id
            } else {
                other_id
            };
            if table_rev {
                Some((b, a, kind))
            } else {
                Some((a, b, kind))
            }
        },
    }
}

/// The identity a link candidate points at.
pub open spec fn spec_link_target(l: LinkV) -> IdV {
    (l.0.base_url, l.1)
}

/// The relations a list of link candidates produces for one issue.
pub open spec fn spec_links_rels(issue: ReportIssueV, links: Seq<LinkV>) -> Set<RelV> {
    Set::new(
        |rel: RelV|
            exists|j: int|
                0 <= j < links.len() && spec_link_relation(issue, links[j]) == Some(rel),
    )
}

/// The relations one issue contributes to the round.
pub open spec fn spec_issue_rels(foreign: Seq<ForeignRelationV>, issue: ReportIssueV) -> Set<
    RelV,
> {
    spec_links_rels(issue, spec_issue_links(foreign, issue))
}

/// The relations one expansion round discovers over a frontier.
pub open spec fn spec_round_rels(
    foreign: Seq<ForeignRelationV>,
    frontier: Seq<ReportIssueV>,
) -> Set<RelV> {
    Set::new(
        |rel: RelV|
            exists|i: int|
                0 <= i < frontier.len() && spec_issue_rels(foreign, frontier[i]).contains(rel),
    )
}

/// The identities one issue's candidates point at that produced a relation
/// and are absent from the store.
pub open spec fn spec_links_missing(
    store: Seq<ReportIssueV>,
    issue: ReportIssueV,
    links: Seq<LinkV>,
) -> Set<IdV> {
    Set::new(
        |id: IdV|
            !spec_contains_id(store, id) && exists|j: int|
                0 <= j < links.len() && spec_link_relation(issue, links[j]) is Some
                    && spec_link_target(links[j]) == id,
    )
}

/// The identities one expansion round must fetch: targets of produced
/// relations that the store does not hold yet.
pub open spec fn spec_round_missing(
    foreign: Seq<ForeignRelationV>,
    store: Seq<ReportIssueV>,
    frontier: Seq<ReportIssueV>,
) -> Set<IdV> {
    Set::new(
        |id: IdV|
            exists|i: int|
                0 <= i < frontier.len() && spec_links_missing(
                    store,
                    frontier[i],
                    spec_issue_links(foreign, frontier[i]),
                ).contains(id),
    )
}

/// The identities of a fetch list.
pub open spec fn fetch_ids(s: Seq<(JiraServer, String)>) -> Seq<IdV> {
    s.map_values(|p: (JiraServer, String)| (p.0@.base_url, p.1@))
}

/// Some frontier issue has a link candidate carrying this instance value,
/// pointing at this identity, producing a relation, with the identity
/// absent from the store.
pub open spec fn spec_missing_link_jira(
    foreign: Seq<ForeignRelationV>,
    store: Seq<ReportIssueV>,
    frontier: Seq<ReportIssueV>,
    jira: JiraServerV,
    id: IdV,
) -> bool {
    exists|i: int, j: int|
        0 <= i < frontier.len() && 0 <= j < spec_issue_links(foreign, frontier[i]).len()
            && spec_issue_links(foreign, frontier[i])[j].0 == jira && spec_link_target(
            spec_issue_links(foreign, frontier[i])[j],
        ) == id && spec_link_relation(frontier[i], spec_issue_links(foreign, frontier[i])[j])
            is Some && !spec_contains_id(store, id)
}

/// Taking one more link extends the produced relations by at most that
/// link's relation.
pub proof fn lemma_links_rels_take(issue: ReportIssueV, links: Seq<LinkV>, j: int)
    requires
        0 <= j < links.len(),
    ensures
        spec_links_rels(issue, links.take(j + 1)) =~= spec_links_rels(issue, links.take(j)) + (
        match spec_link_relation(issue, links[j]) {
            Some(rel) => set![rel],
            None => Set::<RelV>::empty(),
        }),
{
    let lhs = spec_links_rels(issue, links.take(j + 1));
    let tail = (match spec_link_relation(issue, links[j]) {
        Some(rel) => set![rel],
        None => Set::<RelV>::empty(),
    });
    let rhs = spec_links_rels(issue, links.take(j)) + tail;
    assert forall|rel: RelV| lhs.contains(rel) implies rhs.contains(rel) by {
        let j2 = choose|j2: int|
            0 <= j2 < links.take(j + 1).len() && (#[trigger] spec_link_relation(
                issue,
                links.take(j + 1)[j2],
            )) == Some(rel);
        if j2 < j {
            assert(links.take(j)[j2] == links.take(j + 1)[j2]);
            assert(spec_links_rels(issue, links.take(j)).contains(rel));
        } else {
            assert(links.take(j + 1)[j2] == links[j]);
        }
    }
    assert forall|rel: RelV| rhs.contains(rel) implies lhs.contains(rel) by {
        if spec_links_rels(issue, links.take(j)).contains(rel) {
            let j2 = choose|j2: int|
                0 <= j2 < links.take(j).len() && (#[trigger] spec_link_relation(
                    issue,
                    links.take(j)[j2],
                )) == Some(rel);
            assert(links.take(j + 1)[j2] == links.take(j)[j2]);
            assert(spec_link_relation(issue, links.take(j + 1)[j2]) == Some(rel));
        } else {
            assert(tail.contains(rel));
            assert(links.take(j + 1)[j] == links[j]);
            assert(spec_link_relation(issue, links.take(j + 1)[j]) == Some(rel));
        }
    }
}

/// Taking one more link extends the missing identities by at most that
/// link's target.
pub proof fn lemma_links_missing_take(
    store: Seq<ReportIssueV>,
    issue: ReportIssueV,
    links: Seq<LinkV>,
    j: int,
)
    requires
        0 <= j < links.len(),
    ensures
        spec_links_missing(store, issue, links.take(j + 1)) =~= spec_links_missing(
            store,
            issue,
            links.take(j),
        ) + (if spec_link_relation(issue, links[j]) is Some && !spec_contains_id(
            store,
            spec_link_target(links[j]),
        ) {
            set![spec_link_target(links[j])]
        } else {
            Set::<IdV>::empty()
        }),
{
    let lhs = spec_links_missing(store, issue, links.take(j + 1));
    let tail = (if spec_link_relation(issue, links[j]) is Some && !spec_contains_id(
        store,
        spec_link_target(links[j]),
    ) {
        set![spec_link_target(links[j])]
    } else {
        Set::<IdV>::empty()
    });
    let rhs = spec_links_missing(store, issue, links.take(j)) + tail;
    assert forall|id: IdV| lhs.contains(id) implies rhs.contains(id) by {
        let j2 = choose|j2: int|
            0 <= j2 < links.take(j + 1).len() && (#[trigger] spec_link_relation(
                issue,
                links.take(j + 1)[j2],
            )) is Some && spec_link_target(links.take(j + 1)[j2]) == id;
        if j2 < j {
            assert(links.take(j)[j2] == links.take(j + 1)[j2]);
            assert(spec_links_missing(store, issue, links.take(j)).contains(id));
        } else {
            assert(links.take(j + 1)[j2] == links[j]);
        }
    }
    assert forall|id: IdV| rhs.contains(id) implies lhs.contains(id) by {
        if spec_links_missing(store, issue, links.take(j)).contains(id) {
            let j2 = choose|j2: int|
                0 <= j2 < links.take(j).len() && (#[trigger] spec_link_relation(
                    issue,
                    links.take(j)[j2],
                )) is Some && spec_link_target(links.take(j)[j2]) == id;
            assert(links.take(j + 1)[j2] == links.take(j)[j2]);
        } else {
            assert(tail.contains(id));
            assert(links.take(j + 1)[j] == links[j]);
        }
    }
}

/// Taking one more frontier issue extends the round's relations by that
/// issue's contribution.
pub proof fn lemma_round_rels_take(
    foreign: Seq<ForeignRelationV>,
    frontier: Seq<ReportIssueV>,
    i: int,
)
    requires
        0 <= i < frontier.len(),
    ensures
        spec_round_rels(foreign, frontier.take(i + 1)) =~= spec_round_rels(
            foreign,
            frontier.take(i),
        ) + spec_issue_rels(foreign, frontier[i]),
{
    let lhs = spec_round_rels(foreign, frontier.take(i + 1));
    let rhs = spec_round_rels(foreign, frontier.take(i)) + spec_issue_rels(foreign, frontier[i]);
    assert forall|rel: RelV| lhs.contains(rel) implies rhs.contains(rel) by {
        let i2 = choose|i2: int|
            0 <= i2 < frontier.take(i + 1).len() && (#[trigger] spec_issue_rels(
                foreign,
                frontier.take(i + 1)[i2],
            )).contains(rel);
        if i2 < i {
            assert(frontier.take(i)[i2] == frontier.take(i + 1)[i2]);
            assert(spec_round_rels(foreign, frontier.take(i)).contains(rel));
        } else {
            assert(frontier.take(i + 1)[i2] == frontier[i]);
        }
    }
    assert forall|rel: RelV| rhs.contains(rel) implies lhs.contains(rel) by {
        if spec_round_rels(foreign, frontier.take(i)).contains(rel) {
            let i2 = choose|i2: int|
                0 <= i2 < frontier.take(i).len() && (#[trigger] spec_issue_rels(
                    foreign,
                    frontier.take(i)[i2],
                )).contains(rel);
            assert(frontier.take(i + 1)[i2] == frontier.take(i)[i2]);
            assert(spec_issue_rels(foreign, frontier.take(i + 1)[i2]).contains(rel));
        } else {
            assert(frontier.take(i + 1)[i] == frontier[i]);
            assert(spec_issue_rels(foreign, frontier.take(i + 1)[i]).contains(rel));
        }
    }
}

/// Taking one more frontier issue extends the round's missing identities by
/// that issue's contribution.
pub proof fn lemma_round_missing_take(
    foreign: Seq<ForeignRelationV>,
    store: Seq<ReportIssueV>,
    frontier: Seq<ReportIssueV>,
    i: int,
)
    requires
        0 <= i < frontier.len(),
    ensures
        spec_round_missing(foreign, store, frontier.take(i + 1)) =~= spec_round_missing(
            foreign,
            store,
            frontier.take(i),
        ) + spec_links_missing(store, frontier[i], spec_issue_links(foreign, frontier[i])),
{
    let lhs = spec_round_missing(foreign, store, frontier.take(i + 1));
    let rhs = spec_round_missing(foreign, store, frontier.take(i)) + spec_links_missing(
        store,
        frontier[i],
        spec_issue_links(foreign, frontier[i]),
    );
    assert forall|id: IdV| lhs.contains(id) implies rhs.contains(id) by {
        let i2 = choose|i2: int|
            0 <= i2 < frontier.take(i + 1).len() && (#[trigger] spec_links_missing(
                store,
                frontier.take(i + 1)[i2],
                spec_issue_links(foreign, frontier.take(i + 1)[i2]),
            )).contains(id);
        if i2 < i {
            assert(frontier.take(i)[i2] == frontier.take(i + 1)[i2]);
            assert(spec_round_missing(foreign, store, frontier.take(i)).contains(id));
        } else {
            assert(frontier.take(i + 1)[i2] == frontier[i]);
        }
    }
    assert forall|id: IdV| rhs.contains(id) implies lhs.contains(id) by {
        if spec_round_missing(foreign, store, frontier.take(i)).contains(id) {
            let i2 = choose|i2: int|
                0 <= i2 < frontier.take(i).len() && (#[trigger] spec_links_missing(
                    store,
                    frontier.take(i)[i2],
                    spec_issue_links(foreign, frontier.take(i)[i2]),
                )).contains(id);
            assert(frontier.take(i + 1)[i2] == frontier.take(i)[i2]);
            assert(spec_links_missing(
                store,
                frontier.take(i + 1)[i2],
                spec_issue_links(foreign, frontier.take(i + 1)[i2]),
            ).contains(id));
        } else {
            assert(frontier.take(i + 1)[i] == frontier[i]);
            assert(spec_links_missing(
                store,
                frontier.take(i + 1)[i],
                spec_issue_links(foreign, frontier.take(i + 1)[i]),
            ).contains(id));
        }
    }
}

/// Whether a fetch list already names an identity.
fn fetch_contains(v: &Vec<(JiraServer, String)>, id: &IssueID) -> (b: bool)
    ensures
        b == fetch_ids(v@).contains(id@),
{
    let mut i: usize = 0;
    while i < v.len()
        invariant
            i <= v@.len(),
            forall|j: int| 0 <= j < i ==> fetch_ids(v@)[j] != id@,
        decreases v@.len() - i,
    {
        let (jira, key) = &v[i];
        if str_eq(jira.base_url.as_str(), id.jira.as_str()) && str_eq(
            key.as_str(),
            id.issue.as_str(),
        ) {
            assert(fetch_ids(v@)[i as int] == id@);
            return true;
        }
        i += 1;
    }
    false
}

/// One expansion round: classifies every link candidate of every frontier
/// issue, inserts the produced relations into the set, and returns the
/// linked issues that the store does not hold yet — each missing identity
/// exactly once, paired with the instance a candidate named it under.
pub fn expand_round(
    foreign_relations: &[ForeignRelation],
    issues: &IssuesList,
    relations: &mut RelationSet,
    frontier: &Vec<ReportIssue>,
) -> (to_fetch: Vec<(JiraServer, String)>)
    requires
        old(relations).wf(),
    ensures
        final(relations).wf(),
        final(relations)@.to_set() == old(relations)@.to_set() + spec_round_rels(
            foreign_view(foreign_relations@),
            issues_view(frontier@),
        ),
        fetch_ids(to_fetch@).no_duplicates(),
        fetch_ids(to_fetch@).to_set() == spec_round_missing(
            foreign_view(foreign_relations@),
            issues@,
            issues_view(frontier@),
        ),
        forall|k: int|
            0 <= k < to_fetch@.len() ==> spec_missing_link_jira(
                foreign_view(foreign_relations@),
                issues@,
                issues_view(frontier@),
                to_fetch@[k].0@,
                fetch_ids(to_fetch@)[k],
            ),
{
    let ghost fv = foreign_view(foreign_relations@);
    let ghost frv = issues_view(frontier@);
    let ghost rels0 = relations@.to_set();
    let mut to_fetch: Vec<(JiraServer, String)> = Vec::new();
    proof {
        assert(spec_round_rels(fv, frv.take(0)) =~= Set::<RelV>::empty());
        assert(spec_round_missing(fv, issues@, frv.take(0)) =~= Set::<IdV>::empty());
        assert(relations@.to_set() =~= rels0 + spec_round_rels(fv, frv.take(0)));
        assert(fetch_ids(to_fetch@).to_set() =~= spec_round_missing(fv, issues@, frv.take(0)));
    }
    let mut i: usize = 0;
    while i < frontier.len()
        invariant
            i <= frontier@.len(),
            frv == issues_view(frontier@),
            fv == foreign_view(foreign_relations@),
            rels0 == old(relations)@.to_set(),
            relations.wf(),
            relations@.to_set() == rels0 + spec_round_rels(fv, frv.take(i as int)),
            fetch_ids(to_fetch@).no_duplicates(),
            fetch_ids(to_fetch@).to_set() == spec_round_missing(fv, issues@, frv.take(i as int)),
            forall|k: int|
                0 <= k < to_fetch@.len() ==> spec_missing_link_jira(
                    fv,
                    issues@,
                    frv.take(i as int),
                    to_fetch@[k].0@,
                    fetch_ids(to_fetch@)[k],
                ),
        decreases frontier@.len() - i,
    {
        let issue = &frontier[i];
        let links = ReportData::issue_links(foreign_relations, issue);
        let ghost lks = links_view(links@);
        let issue_id = IssueID::of_issue(issue);
        proof {
            assert(issue@ == frv[i as int]);
            assert(lks == spec_issue_links(fv, frv[i as int]));
            assert(spec_links_rels(frv[i as int], lks.take(0)) =~= Set::<RelV>::empty());
            assert(spec_links_missing(issues@, frv[i as int], lks.take(0)) =~= Set::<
                IdV,
            >::empty());
            assert(relations@.to_set() =~= rels0 + spec_round_rels(fv, frv.take(i as int))
                + spec_links_rels(frv[i as int], lks.take(0)));
            assert(fetch_ids(to_fetch@).to_set() =~= spec_round_missing(
                fv,
                issues@,
                frv.take(i as int),
            ) + spec_links_missing(issues@, frv[i as int], lks.take(0)));
        }
        let mut j: usize = 0;
        while j < links.len()
            invariant
                j <= links@.len(),
                i < frontier@.len(),
                frv == issues_view(frontier@),
                fv == foreign_view(foreign_relations@),
                rels0 == old(relations)@.to_set(),
                lks == links_view(links@),
                lks == spec_issue_links(fv, frv[i as int]),
                issue@ == frv[i as int],
                issue_id@ == spec_id_of(frv[i as int]),
                relations.wf(),
                relations@.to_set() == rels0 + spec_round_rels(fv, frv.take(i as int))
                    + spec_links_rels(frv[i as int], lks.take(j as int)),
                fetch_ids(to_fetch@).no_duplicates(),
                fetch_ids(to_fetch@).to_set() == spec_round_missing(
                    fv,
                    issues@,
                    frv.take(i as int),
                ) + spec_links_missing(issues@, frv[i as int], lks.take(j as int)),
                forall|k: int|
                    0 <= k < to_fetch@.len() ==> spec_missing_link_jira(
                        fv,
                        issues@,
                        frv.take(i as int + 1),
                        to_fetch@[k].0@,
                        fetch_ids(to_fetch@)[k],
                    ),
            decreases links@.len() - j,
        {
            proof {
                lemma_links_rels_take(frv[i as int], lks, j as int);
                lemma_links_missing_take(issues@, frv[i as int], lks, j as int);
                assert(lks[j as int] == (links@[j as int].0@, links@[j as int].1@,
                links@[j as int].2@, links@[j as int].3));
            }
            let (link_jira, link_key, kind, reversed) = &links[j];
            match classify_term(kind.as_str()) {
                None => {
                    proof {
                        assert(spec_link_relation(frv[i as int], lks[j as int]) is None);
                    }
                },
                Some((k, table_rev)) => {
                    let registered = match issues.get(link_jira, link_key.as_str()) {
                        Some(_) => true,
                        None => false,
                    };
                    proof {
                        lemma_find_some_iff_contains(issues@, (link_jira@.base_url, link_key@));
                        assert(registered == spec_contains_id(
                            issues@,
                            spec_link_target(lks[j as int]),
                        ));
                    }
                    let other = IssueID::new(link_jira, link_key.as_str());
                    let (a, b) = if *reversed {
                        (other.clone(), issue_id.clone())
                    } else {
                        (issue_id.clone(), other.clone())
                    };
                    let rel = if table_rev {
                        Relation { from: b, to: a, kind: k }
                    } else {
                        Relation { from: a, to: b, kind: k }
                    };
                    proof {
                        assert(spec_link_relation(frv[i as int], lks[j as int]) == Some(rel@));
                    }
                    let ghost rels_seq_before = relations@;
                    let ghost rels_before = relations@.to_set();
                    relations.insert(rel);
                    proof {
                        if rels_seq_before.contains(rel@) {
                            assert(rels_before.contains(rel@));
                        } else {
                            lemma_push_to_set(rels_seq_before, rel@);
                        }
                        assert(relations@.to_set() =~= rels_before.insert(rel@));
                    }
                    if !registered {
                        if !fetch_contains(&to_fetch, &other) {
                            let ghost ids_before = fetch_ids(to_fetch@);
                            to_fetch.push((link_jira.clone(), link_key.clone()));
                            proof {
                                assert(fetch_ids(to_fetch@) =~= ids_before.push(other@));
                                lemma_push_to_set(ids_before, other@);
                                assert(fetch_ids(to_fetch@).to_set() =~= ids_before.to_set().insert(
                                    other@,
                                ));
                                assert(other@ == spec_link_target(lks[j as int]));
                                assert(to_fetch@[to_fetch@.len() - 1].0@ == lks[j as int].0);
                                assert(spec_missing_link_jira(
                                    fv,
                                    issues@,
                                    frv.take(i as int + 1),
                                    lks[j as int].0,
                                    other@,
                                )) by {
                                    assert(frv.take(i as int + 1)[i as int] == frv[i as int]);
                                }
                            }
                        }
                    }
                },
            }
            proof {
                assert(relations@.to_set() =~= rels0 + spec_round_rels(fv, frv.take(i as int))
                    + spec_links_rels(frv[i as int], lks.take(j as int + 1)));
                assert(fetch_ids(to_fetch@).to_set() =~= spec_round_missing(
                    fv,
                    issues@,
                    frv.take(i as int),
                ) + spec_links_missing(issues@, frv[i as int], lks.take(j as int + 1)));
            }
            j += 1;
        }
        proof {
            assert(lks.take(links@.len() as int) =~= lks);
            lemma_round_rels_take(fv, frv, i as int);
            lemma_round_missing_take(fv, issues@, frv, i as int);
            assert(relations@.to_set() =~= rels0 + spec_round_rels(fv, frv.take(i as int + 1)));
            assert(fetch_ids(to_fetch@).to_set() =~= spec_round_missing(
                fv,
                issues@,
                frv.take(i as int + 1),
            ));
        }
        i += 1;
    }
    proof {
        assert(frv.take(frontier@.len() as int) =~= frv);
    }
    to_fetch
}

/// One batched fetch: a single combined query covering many keys on one
/// instance, replacing one round-trip per key.
#[derive(Debug)]
pub struct FetchRequest {
    pub jira: JiraServer,
    pub keys: Vec<String>,
}

#[verifier::ext_equal]
pub struct FetchRequestV {
    pub jira: JiraServerV,
    pub keys: Seq<Seq<char>>,
}

impl View for FetchRequest {
    type V = FetchRequestV;

    open spec fn view(&self) -> FetchRequestV {
        FetchRequestV { jira: self.jira@, keys: crate::jira_types::strs_view(self.keys@) }
    }
}

/// Whether a batched fetch covers an identity.
pub open spec fn req_has_id(r: FetchRequestV, id: IdV) -> bool {
    r.jira.base_url == id.0 && exists|q: int| 0 <= q < r.keys.len() && r.keys[q] == id.1
}

/// Whether some batched fetch of the plan covers an identity.
pub open spec fn reqs_have_id(reqs: Seq<FetchRequestV>, id: IdV) -> bool {
    exists|p: int| 0 <= p < reqs.len() && req_has_id(reqs[p], id)
}

/// The views of a fetch plan.
pub open spec fn reqs_view(s: Seq<FetchRequest>) -> Seq<FetchRequestV> {
    s.map_values(|r: FetchRequest| r@)
}

/// Groups a list of identities into one batched fetch per instance: every
/// identity is covered by exactly one batch — each instance appears in one
/// batch and no batch repeats a key — and every batch entry comes from the
/// list.
/// Whether the plan already holds a batch for the instance.
fn has_base(reqs: &Vec<FetchRequest>, base: &str) -> (b: bool)
    ensures
        b == exists|p: int|
            #![trigger reqs@[p]]
            0 <= p < reqs@.len() && reqs@[p]@.jira.base_url == base@,
{
    let mut p: usize = 0;
    while p < reqs.len()
        invariant
            p <= reqs@.len(),
            forall|p2: int| 0 <= p2 < p ==> reqs@[p2]@.jira.base_url != base@,
        decreases reqs@.len() - p,
    {
        if str_eq(reqs[p].jira.base_url.as_str(), base) {
            proof {
                assert(reqs@[p as int]@.jira.base_url == base@);
            }
            return true;
        }
        p += 1;
    }
    false
}

/// The keys listed under the given instance, in order.
pub open spec fn keys_of(v: Seq<(JiraServer, String)>, base: Seq<char>) -> Seq<Seq<char>>
    decreases v.len(),
{
    if v.len() == 0 {
        Seq::empty()
    } else {
        (if v[0].0@.base_url == base {
            seq![v[0].1@]
        } else {
            Seq::empty()
        }) + keys_of(v.drop_first(), base)
    }
}

/// Appending one listed identity appends its key to its instance's keys.
pub proof fn lemma_keys_of_snoc(v: Seq<(JiraServer, String)>, base: Seq<char>, x: (JiraServer, String))
    ensures
        keys_of(v.push(x), base) == keys_of(v, base) + (if x.0@.base_url == base {
            seq![x.1@]
        } else {
            Seq::<Seq<char>>::empty()
        }),
    decreases v.len(),
{
    let tail = (if x.0@.base_url == base {
        seq![x.1@]
    } else {
        Seq::<Seq<char>>::empty()
    });
    if v.len() == 0 {
        assert(v.push(x)[0] == x);
        assert(v.push(x).drop_first() =~= Seq::<(JiraServer, String)>::empty());
        assert(keys_of(Seq::<(JiraServer, String)>::empty(), base) == Seq::<Seq<char>>::empty());
        assert(keys_of(v.push(x), base) =~= tail);
        assert(keys_of(v, base) + tail =~= tail);
    } else {
        assert(v.push(x)[0] == v[0]);
        assert(v.push(x).drop_first() =~= v.drop_first().push(x));
        lemma_keys_of_snoc(v.drop_first(), base, x);
        let head = (if v[0].0@.base_url == base {
            seq![v[0].1@]
        } else {
            Seq::<Seq<char>>::empty()
        });
        assert(head + (keys_of(v.drop_first(), base) + tail) =~= (head + keys_of(
            v.drop_first(),
            base,
        )) + tail);
    }
}

/// Some listed identity carries this instance and key.
pub open spec fn key_listed(v: Seq<(JiraServer, String)>, base: Seq<char>, key: Seq<char>) -> bool {
    exists|m: int|
        #![trigger v[m]]
        0 <= m < v.len() && v[m].0@.base_url == base && v[m].1@ == key
}

/// Every key of an instance's key list is listed under that instance.
pub proof fn lemma_keys_of_sound(v: Seq<(JiraServer, String)>, base: Seq<char>)
    ensures
        forall|q: int|
            #![trigger keys_of(v, base)[q]]
            0 <= q < keys_of(v, base).len() ==> key_listed(v, base, keys_of(v, base)[q]),
    decreases v.len(),
{
    if v.len() > 0 {
        lemma_keys_of_sound(v.drop_first(), base);
        let rec = keys_of(v.drop_first(), base);
        let head = (if v[0].0@.base_url == base {
            seq![v[0].1@]
        } else {
            Seq::<Seq<char>>::empty()
        });
        assert forall|q: int|
            #![trigger keys_of(v, base)[q]]
            0 <= q < keys_of(v, base).len() implies key_listed(v, base, keys_of(v, base)[q]) by {
            if q < head.len() {
                assert(keys_of(v, base)[q] == v[0].1@);
                assert(v[0].0@.base_url == base);
            } else {
                assert(keys_of(v, base)[q] == rec[q - head.len()]);
                let m = choose|m: int|
                    #![trigger v.drop_first()[m]]
                    0 <= m < v.drop_first().len() && v.drop_first()[m].0@.base_url == base
                        && v.drop_first()[m].1@ == rec[q - head.len()];
                assert(v[m + 1] == v.drop_first()[m]);
            }
        }
    }
}

/// Every key listed under an instance stands in that instance's key list.
pub proof fn lemma_keys_of_complete(v: Seq<(JiraServer, String)>, base: Seq<char>, m: int)
    requires
        0 <= m < v.len(),
        v[m].0@.base_url == base,
    ensures
        keys_of(v, base).contains(v[m].1@),
    decreases v.len(),
{
    let head = (if v[0].0@.base_url == base {
        seq![v[0].1@]
    } else {
        Seq::<Seq<char>>::empty()
    });
    if m == 0 {
        assert(keys_of(v, base)[0] == v[0].1@);
    } else {
        lemma_keys_of_complete(v.drop_first(), base, m - 1);
        let rec = keys_of(v.drop_first(), base);
        let q = choose|q: int| 0 <= q < rec.len() && rec[q] == v.drop_first()[m - 1].1@;
        assert(keys_of(v, base)[head.len() + q] == rec[q]);
    }
}

/// On a duplicate-free identity list, an instance's key list is
/// duplicate-free.
pub proof fn lemma_keys_of_no_dup(v: Seq<(JiraServer, String)>, base: Seq<char>)
    requires
        fetch_ids(v).no_duplicates(),
    ensures
        keys_of(v, base).no_duplicates(),
    decreases v.len(),
{
    if v.len() > 0 {
        assert(fetch_ids(v.drop_first()) =~= fetch_ids(v).drop_first());
        assert(fetch_ids(v).drop_first().no_duplicates()) by {
            assert forall|a: int, b: int|
                0 <= a < b < fetch_ids(v).drop_first().len() implies fetch_ids(
                v,
            ).drop_first()[a] != fetch_ids(v).drop_first()[b] by {
                assert(fetch_ids(v).drop_first()[a] == fetch_ids(v)[a + 1]);
                assert(fetch_ids(v).drop_first()[b] == fetch_ids(v)[b + 1]);
            }
        }
        lemma_keys_of_no_dup(v.drop_first(), base);
        lemma_keys_of_sound(v.drop_first(), base);
        let rec = keys_of(v.drop_first(), base);
        if v[0].0@.base_url == base {
            assert forall|q: int| 0 <= q < rec.len() implies rec[q] != v[0].1@ by {
                assert(key_listed(v.drop_first(), base, rec[q]));
                let m = choose|m: int|
                    #![trigger v.drop_first()[m]]
                    0 <= m < v.drop_first().len() && v.drop_first()[m].0@.base_url == base
                        && v.drop_first()[m].1@ == rec[q];
                assert(fetch_ids(v)[m + 1] == (base, rec[q]));
                assert(fetch_ids(v)[0] == (base, v[0].1@));
            }
            assert forall|a: int, b: int|
                0 <= a < b < keys_of(v, base).len() implies keys_of(v, base)[a] != keys_of(
                v,
                base,
            )[b] by {
                if a == 0 {
                    assert(keys_of(v, base)[b] == rec[b - 1]);
                } else {
                    assert(keys_of(v, base)[a] == rec[a - 1]);
                    assert(keys_of(v, base)[b] == rec[b - 1]);
                }
            }
        } else {
            assert(keys_of(v, base) =~= rec);
        }
    }
}

/// All keys listed under the given instance, in order.
fn collect_keys(v: &Vec<(JiraServer, String)>, base: &str) -> (keys: Vec<String>)
    ensures
        crate::jira_types::strs_view(keys@) == keys_of(v@, base@),
{
    let mut keys: Vec<String> = Vec::new();
    let mut j: usize = 0;
    proof {
        assert(v@.take(0) =~= Seq::<(JiraServer, String)>::empty());
        assert(crate::jira_types::strs_view(keys@) =~= keys_of(v@.take(0), base@));
    }
    while j < v.len()
        invariant
            j <= v@.len(),
            crate::jira_types::strs_view(keys@) == keys_of(v@.take(j as int), base@),
        decreases v@.len() - j,
    {
        proof {
            lemma_keys_of_snoc(v@.take(j as int), base@, v@[j as int]);
            assert(v@.take(j as int).push(v@[j as int]) =~= v@.take(j as int + 1));
        }
        let (j2, k2) = &v[j];
        if str_eq(j2.base_url.as_str(), base) {
            keys.push(k2.clone());
            proof {
                assert(crate::jira_types::strs_view(keys@) =~= keys_of(
                    v@.take(j as int + 1),
                    base@,
                ));
            }
        } else {
            proof {
                assert(crate::jira_types::strs_view(keys@) =~= keys_of(
                    v@.take(j as int + 1),
                    base@,
                ));
            }
        }
        j += 1;
    }
    proof {
        assert(v@.take(v@.len() as int) =~= v@);
    }
    keys
}

/// Groups a list of identities into one batched fetch per instance: every
/// identity is covered by exactly one batch — each instance appears in one
/// batch and no batch repeats a key — and every batch entry comes from the
/// list.
pub fn group_by_instance(v: &Vec<(JiraServer, String)>) -> (reqs: Vec<FetchRequest>)
    requires
        fetch_ids(v@).no_duplicates(),
    ensures
        forall|k: int| 0 <= k < v@.len() ==> reqs_have_id(reqs_view(reqs@), fetch_ids(v@)[k]),
        forall|p: int, q: int|
            #![trigger reqs@[p]@.keys[q]]
            0 <= p < reqs@.len() && 0 <= q < reqs@[p]@.keys.len() ==> fetch_ids(v@).contains(
                (reqs@[p]@.jira.base_url, reqs@[p]@.keys[q]),
            ),
        forall|p1: int, p2: int|
            0 <= p1 < p2 < reqs@.len() ==> reqs@[p1]@.jira.base_url != reqs@[p2]@.jira.base_url,
        forall|p: int| 0 <= p < reqs@.len() ==> reqs@[p]@.keys.no_duplicates(),
        forall|p: int|
            #![trigger reqs@[p]]
            0 <= p < reqs@.len() ==> exists|k: int|
                #![trigger v@[k]]
                0 <= k < v@.len() && v@[k].0@ == reqs@[p]@.jira,
{
    let mut reqs: Vec<FetchRequest> = Vec::new();
    let mut i: usize = 0;
    while i < v.len()
        invariant
            i <= v@.len(),
            fetch_ids(v@).no_duplicates(),
            forall|p: int|
                #![trigger reqs@[p]]
                0 <= p < reqs@.len() ==> reqs@[p]@.keys == keys_of(v@, reqs@[p]@.jira.base_url),
            forall|k: int|
                #![trigger v@[k]]
                0 <= k < i ==> exists|p: int|
                    #![trigger reqs@[p]]
                    0 <= p < reqs@.len() && reqs@[p]@.jira.base_url == v@[k].0@.base_url,
            forall|p1: int, p2: int|
                0 <= p1 < p2 < reqs@.len() ==> reqs@[p1]@.jira.base_url
                    != reqs@[p2]@.jira.base_url,
            forall|p: int|
                #![trigger reqs@[p]]
                0 <= p < reqs@.len() ==> exists|k: int|
                    #![trigger v@[k]]
                    0 <= k < v@.len() && v@[k].0@ == reqs@[p]@.jira,
        decreases v@.len() - i,
    {
        let (jira, _key) = &v[i];
        if !has_base(&reqs, jira.base_url.as_str()) {
            let keys = collect_keys(v, jira.base_url.as_str());
            let ghost old_reqs = reqs@;
            reqs.push(FetchRequest { jira: jira.clone(), keys });
            proof {
                let ghost last = reqs@.len() - 1;
                assert(reqs@[last]@.jira == jira@);
                assert(v@[i as int].0@ == reqs@[last]@.jira);
                assert(forall|p: int| 0 <= p < last ==> reqs@[p] == old_reqs[p]);
            }
        }
        proof {
            assert(exists|p2: int|
                #![trigger reqs@[p2]]
                0 <= p2 < reqs@.len() && reqs@[p2]@.jira.base_url == v@[i as int].0@.base_url);
        }
        i += 1;
    }
    proof {
        assert forall|k: int|
            0 <= k < v@.len() implies reqs_have_id(reqs_view(reqs@), fetch_ids(v@)[k]) by {
            let p = choose|p: int|
                #![trigger reqs@[p]]
                0 <= p < reqs@.len() && reqs@[p]@.jira.base_url == v@[k].0@.base_url;
            lemma_keys_of_complete(v@, reqs@[p]@.jira.base_url, k);
            let q = choose|q: int|
                0 <= q < reqs@[p]@.keys.len() && reqs@[p]@.keys[q] == v@[k].1@;
            assert(req_has_id(reqs_view(reqs@)[p], fetch_ids(v@)[k]));
        }
        assert forall|p: int, q: int|
            0 <= p < reqs@.len() && 0 <= q < reqs@[p]@.keys.len() implies fetch_ids(
            v@,
        ).contains((reqs@[p]@.jira.base_url, reqs@[p]@.keys[q])) by {
            lemma_keys_of_sound(v@, reqs@[p]@.jira.base_url);
            assert(key_listed(v@, reqs@[p]@.jira.base_url, reqs@[p]@.keys[q]));
            let m = choose|m: int|
                #![trigger v@[m]]
                0 <= m < v@.len() && v@[m].0@.base_url == reqs@[p]@.jira.base_url && v@[m].1@
                    == reqs@[p]@.keys[q];
            assert(fetch_ids(v@)[m] == (reqs@[p]@.jira.base_url, reqs@[p]@.keys[q]));
        }
        assert forall|p: int| 0 <= p < reqs@.len() implies reqs@[p]@.keys.no_duplicates() by {
            lemma_keys_of_no_dup(v@, reqs@[p]@.jira.base_url);
        }
    }
    reqs
}

/// First-write-wins absorption of a fetched batch: the store after all
/// insertions, paired with the records that were new — in order, each
/// identity once. The new records form the next round's frontier: an issue
/// already held is not placed in a frontier again.
pub open spec fn spec_absorb(store: Seq<ReportIssueV>, items: Seq<ReportIssueV>) -> (
    Seq<ReportIssueV>,
    Seq<ReportIssueV>,
)
    decreases items.len(),
{
    if items.len() == 0 {
        (store, Seq::empty())
    } else {
        let first_new = !spec_contains_id(store, spec_id_of(items[0]));
        let rest = spec_absorb(spec_insert1(store, items[0]), items.drop_first());
        (
            rest.0,
            (if first_new {
                seq![items[0]]
            } else {
                Seq::empty()
            }) + rest.1,
        )
    }
}

/// Inserts a fetched batch into the store, first write wins, and returns
/// the records that were new, in order: the next round's frontier.
pub fn absorb_fetched(issues: &mut IssuesList, fetched: &Vec<ReportIssue>) -> (next: Vec<
    ReportIssue,
>)
    requires
        old(issues).wf(),
    ensures
        final(issues).wf(),
        final(issues)@ == spec_absorb(old(issues)@, issues_view(fetched@)).0,
        issues_view(next@) == spec_absorb(old(issues)@, issues_view(fetched@)).1,
{
    let ghost base0 = issues@;
    let ghost itemsv = issues_view(fetched@);
    let mut next: Vec<ReportIssue> = Vec::new();
    proof {
        assert(itemsv.skip(0) =~= itemsv);
        assert(issues_view(next@) =~= Seq::<ReportIssueV>::empty());
    }
    let mut i: usize = 0;
    while i < fetched.len()
        invariant
            i <= fetched@.len(),
            itemsv == issues_view(fetched@),
            issues.wf(),
            spec_absorb(base0, itemsv).0 == spec_absorb(issues@, itemsv.skip(i as int)).0,
            spec_absorb(base0, itemsv).1 == issues_view(next@) + spec_absorb(
                issues@,
                itemsv.skip(i as int),
            ).1,
        decreases fetched@.len() - i,
    {
        let ghost pre = issues@;
        let ghost suffix = itemsv.skip(i as int);
        proof {
            assert(suffix[0] == itemsv[i as int]);
            assert(suffix.drop_first() =~= itemsv.skip(i as int + 1));
        }
        let record = &fetched[i];
        let id = IssueID::of_issue(record);
        let is_new = !issues.contains_id(&id);
        issues.insert(record);
        let ghost next_pre = issues_view(next@);
        if is_new {
            next.push(record.clone());
            proof {
                assert(issues_view(next@) =~= next_pre.push(itemsv[i as int]));
            }
        }
        proof {
            assert(spec_absorb(pre, suffix).0 == spec_absorb(issues@, itemsv.skip(i as int + 1)).0);
            assert(spec_absorb(pre, suffix).1 == (if is_new {
                seq![itemsv[i as int]]
            } else {
                Seq::<ReportIssueV>::empty()
            }) + spec_absorb(issues@, itemsv.skip(i as int + 1)).1);
            assert(spec_absorb(base0, itemsv).1 == issues_view(next@) + spec_absorb(
                issues@,
                itemsv.skip(i as int + 1),
            ).1) by {
                assert(next_pre + ((if is_new {
                    seq![itemsv[i as int]]
                } else {
                    Seq::<ReportIssueV>::empty()
                }) + spec_absorb(issues@, itemsv.skip(i as int + 1)).1) =~= issues_view(next@)
                    + spec_absorb(issues@, itemsv.skip(i as int + 1)).1);
            }
        }
        i += 1;
    }
    proof {
        assert(itemsv.skip(fetched@.len() as int) =~= Seq::<ReportIssueV>::empty());
        assert(issues_view(next@) + Seq::<ReportIssueV>::empty() =~= issues_view(next@));
    }
    next
}

/// The views of an identity list queued for fetch.
pub open spec fn jk_pairs_view(s: Seq<(JiraServer, String)>) -> Seq<(JiraServerV, Seq<char>)> {
    s.map_values(|p: (JiraServer, String)| (p.0@, p.1@))
}

/// Whether a fetch queue already names an identity.
pub open spec fn spec_fetch_queued(fetch: Seq<(JiraServerV, Seq<char>)>, id: IdV) -> bool {
    exists|q: int|
        #![trigger fetch[q]]
        0 <= q < fetch.len() && (fetch[q].0.base_url, fetch[q].1) == id
}

/// The epic pass over a store snapshot: for every issue carrying an epic
/// reference, in order — an epic already indexed is reused; one present in
/// the store is indexed; a missing one is queued for fetch, once per
/// distinct identity.
pub open spec fn spec_epics_pass(
    store: Seq<ReportIssueV>,
    todo: Seq<ReportIssueV>,
    epics: Seq<ReportIssueV>,
    fetch: Seq<(JiraServerV, Seq<char>)>,
) -> (Seq<ReportIssueV>, Seq<(JiraServerV, Seq<char>)>)
    decreases todo.len(),
{
    if todo.len() == 0 {
        (epics, fetch)
    } else {
        let issue = todo[0];
        let rest = todo.drop_first();
        match issue.custom_fields.epic_link {
            None => spec_epics_pass(store, rest, epics, fetch),
            Some(key) => {
                let eid = (issue.jira.base_url, key);
                if spec_contains_id(epics, eid) {
                    spec_epics_pass(store, rest, epics, fetch)
                } else {
                    match spec_find(store, eid) {
                        Some(epic) => spec_epics_pass(store, rest, spec_insert1(epics, epic), fetch),
                        None => if spec_fetch_queued(fetch, eid) {
                            spec_epics_pass(store, rest, epics, fetch)
                        } else {
                            spec_epics_pass(store, rest, epics, fetch.push((issue.jira, key)))
                        },
                    }
                }
            },
        }
    }
}

/// The epic pass over the store: the epic index drawn from records already
/// present, and the missing epic identities — each queued exactly once.
pub fn epics_plan(issues: &IssuesList) -> (r: (IssuesList, Vec<(JiraServer, String)>))
    requires
        issues.wf(),
    ensures
        r.0.wf(),
        (r.0@, jk_pairs_view(r.1@)) == spec_epics_pass(
            issues@,
            issues@,
            Seq::<ReportIssueV>::empty(),
            Seq::<(JiraServerV, Seq<char>)>::empty(),
        ),
        fetch_ids(r.1@).no_duplicates(),
        forall|k: int|
            0 <= k < r.1@.len() ==> !spec_contains_id(issues@, fetch_ids(r.1@)[k]),
{
    let ghost sv = issues@;
    let mut epics = IssuesList::new();
    let mut to_fetch: Vec<(JiraServer, String)> = Vec::new();
    proof {
        assert(sv.skip(0) =~= sv);
        assert(jk_pairs_view(to_fetch@) =~= Seq::<(JiraServerV, Seq<char>)>::empty());
    }
    let mut i: usize = 0;
    while i < issues.issues.len()
        invariant
            i <= issues.issues@.len(),
            sv == issues@,
            issues.wf(),
            epics.wf(),
            spec_epics_pass(sv, sv, Seq::<ReportIssueV>::empty(), Seq::<(JiraServerV, Seq<
                char,
            >)>::empty()) == spec_epics_pass(sv, sv.skip(i as int), epics@, jk_pairs_view(
                to_fetch@,
            )),
            fetch_ids(to_fetch@).no_duplicates(),
            forall|k: int|
                0 <= k < to_fetch@.len() ==> !spec_contains_id(sv, fetch_ids(to_fetch@)[k]),
        decreases issues.issues@.len() - i,
    {
        let ghost suffix = sv.skip(i as int);
        let ghost epics_pre = epics@;
        let ghost jk_pre = jk_pairs_view(to_fetch@);
        proof {
            assert(suffix[0] == sv[i as int]);
            assert(suffix.drop_first() =~= sv.skip(i as int + 1));
        }
        let issue = &issues.issues[i];
        proof {
            assert(issue@ == sv[i as int]);
        }
        match &issue.custom_fields.epic_link {
            None => {
                proof {
                    assert(sv[i as int].custom_fields.epic_link is None);
                    assert(spec_epics_pass(sv, suffix, epics_pre, jk_pre) == spec_epics_pass(
                        sv,
                        sv.skip(i as int + 1),
                        epics_pre,
                        jk_pre,
                    ));
                }
            },
            Some(epic_key) => {
                let ghost eidv: IdV = (sv[i as int].jira.base_url, epic_key@);
                proof {
                    assert(sv[i as int].custom_fields.epic_link == Some(epic_key@));
                }
                let already = match epics.get(&issue.jira, epic_key.as_str()) {
                    Some(_) => true,
                    None => false,
                };
                proof {
                    lemma_find_some_iff_contains(epics@, eidv);
                    assert(already == spec_contains_id(epics_pre, eidv));
                }
                if !already {
                    match issues.get(&issue.jira, epic_key.as_str()) {
                        Some(epic) => {
                            proof {
                                assert(spec_find(sv, eidv) == Some(epic@));
                            }
                            epics.insert(epic);
                            proof {
                                assert(epics@ == spec_insert1(epics_pre, epic@));
                                assert(spec_epics_pass(sv, suffix, epics_pre, jk_pre)
                                    == spec_epics_pass(
                                    sv,
                                    sv.skip(i as int + 1),
                                    epics@,
                                    jk_pre,
                                ));
                            }
                        },
                        None => {
                            proof {
                                lemma_find_some_iff_contains(sv, eidv);
                                assert(spec_find(sv, eidv) is None);
                            }
                            let eid = IssueID::new(&issue.jira, epic_key.as_str());
                            if !fetch_contains(&to_fetch, &eid) {
                                let ghost ids_pre = fetch_ids(to_fetch@);
                                proof {
                                    assert forall|q: int|
                                        0 <= q < jk_pre.len() implies (jk_pre[q].0.base_url,
                                    jk_pre[q].1) != eidv by {
                                        assert(ids_pre[q] == (jk_pre[q].0.base_url, jk_pre[q].1));
                                    }
                                    assert(!spec_fetch_queued(jk_pre, eidv));
                                }
                                to_fetch.push((issue.jira.clone(), epic_key.clone()));
                                proof {
                                    assert(jk_pairs_view(to_fetch@) =~= jk_pre.push(
                                        (sv[i as int].jira, epic_key@),
                                    ));
                                    assert(fetch_ids(to_fetch@) =~= ids_pre.push(eidv));
                                    assert(spec_epics_pass(sv, suffix, epics_pre, jk_pre)
                                        == spec_epics_pass(
                                        sv,
                                        sv.skip(i as int + 1),
                                        epics_pre,
                                        jk_pairs_view(to_fetch@),
                                    ));
                                }
                            } else {
                                proof {
                                    let q = choose|q: int|
                                        0 <= q < fetch_ids(to_fetch@).len() && fetch_ids(
                                            to_fetch@,
                                        )[q] == eidv;
                                    assert(jk_pre[q] == (to_fetch@[q].0@, to_fetch@[q].1@));
                                    assert((jk_pre[q].0.base_url, jk_pre[q].1) == eidv);
                                    assert(spec_fetch_queued(jk_pre, eidv));
                                    assert(spec_epics_pass(sv, suffix, epics_pre, jk_pre)
                                        == spec_epics_pass(
                                        sv,
                                        sv.skip(i as int + 1),
                                        epics_pre,
                                        jk_pre,
                                    ));
                                }
                            }
                        },
                    }
                } else {
                    proof {
                        assert(spec_epics_pass(sv, suffix, epics_pre, jk_pre) == spec_epics_pass(
                            sv,
                            sv.skip(i as int + 1),
                            epics_pre,
                            jk_pre,
                        ));
                    }
                }
            },
        }
        i += 1;
    }
    proof {
        assert(sv.skip(issues.issues@.len() as int) =~= Seq::<ReportIssueV>::empty());
    }
    (epics, to_fetch)
}

/// Inserts fetched epics into both the epic index and the main store,
/// first write wins.
pub fn epics_absorb(issues: &mut IssuesList, epics: &mut IssuesList, fetched: &Vec<ReportIssue>)
    requires
        old(issues).wf(),
        old(epics).wf(),
    ensures
        final(issues).wf(),
        final(epics).wf(),
        final(issues)@ == spec_insert_all(old(issues)@, issues_view(fetched@)),
        final(epics)@ == spec_insert_all(old(epics)@, issues_view(fetched@)),
{
    let ghost itemsv = issues_view(fetched@);
    let mut i: usize = 0;
    while i < fetched.len()
        invariant
            i <= fetched@.len(),
            itemsv == issues_view(fetched@),
            issues.wf(),
            epics.wf(),
            issues@ == spec_insert_all(old(issues)@, itemsv.take(i as int)),
            epics@ == spec_insert_all(old(epics)@, itemsv.take(i as int)),
        decreases fetched@.len() - i,
    {
        proof {
            lemma_insert_all_snoc(old(issues)@, itemsv.take(i as int), itemsv[i as int]);
            lemma_insert_all_snoc(old(epics)@, itemsv.take(i as int), itemsv[i as int]);
            assert(itemsv.take(i as int).push(itemsv[i as int]) =~= itemsv.take(i as int + 1));
        }
        let record = &fetched[i];
        issues.insert(record);
        epics.insert(record);
        i += 1;
    }
    proof {
        assert(itemsv.take(fetched@.len() as int) =~= itemsv);
    }
}

/// The identities a fetch plan covers.
pub open spec fn reqs_ids_set(reqs: Seq<FetchRequestV>) -> Set<IdV> {
    Set::new(|id: IdV| reqs_have_id(reqs, id))
}

/// The identities a fetch queue names.
pub open spec fn queued_ids_set(s: Seq<(JiraServerV, Seq<char>)>) -> Set<IdV> {
    Set::new(|id: IdV| spec_fetch_queued(s, id))
}

/// A fetch queue names exactly the identities of its entries.
pub proof fn lemma_fetch_ids_queued(v: Seq<(JiraServer, String)>)
    ensures
        fetch_ids(v).to_set() == queued_ids_set(jk_pairs_view(v)),
{
    assert forall|id: IdV|
        fetch_ids(v).to_set().contains(id) implies queued_ids_set(jk_pairs_view(v)).contains(
        id,
    ) by {
        let k = choose|k: int| 0 <= k < fetch_ids(v).len() && fetch_ids(v)[k] == id;
        assert(jk_pairs_view(v)[k] == (v[k].0@, v[k].1@));
        assert((jk_pairs_view(v)[k].0.base_url, jk_pairs_view(v)[k].1) == id);
    }
    assert forall|id: IdV|
        queued_ids_set(jk_pairs_view(v)).contains(id) implies fetch_ids(v).to_set().contains(
        id,
    ) by {
        let q = choose|q: int|
            #![trigger jk_pairs_view(v)[q]]
            0 <= q < jk_pairs_view(v).len() && (jk_pairs_view(v)[q].0.base_url,
            jk_pairs_view(v)[q].1) == id;
        assert(fetch_ids(v)[q] == id);
    }
    assert(fetch_ids(v).to_set() =~= queued_ids_set(jk_pairs_view(v)));
}

/// Where the assembly stands: expanding the graph round by round,
/// resolving epics, or finished.
#[derive(Clone, Copy, PartialEq, Eq, Structural, Debug)]
pub enum AssemblyPhase {
    Expanding,
    ResolvingEpics,
    Done,
}

/// The bounded-depth assembly, step by step. The caller drives it:
/// `advance` works until a batched fetch is needed and returns the plan;
/// the caller performs the fetches, normalizes the results, and hands the
/// records back through `supply`; when the state is done, `finish` yields
/// the report data. Expansion runs for exactly `dependencies_deepness`
/// rounds — remaining transitive links past that depth are not pursued —
/// and the epic pass follows.
#[derive(Debug)]
pub struct Assembly {
    pub foreign_relations: Vec<ForeignRelation>,
    pub issues: IssuesList,
    pub epics: IssuesList,
    pub relations: RelationSet,
    pub frontier: Vec<ReportIssue>,
    /// The epic identities queued for fetch by the epic pass.
    pub epic_queue: Vec<(JiraServer, String)>,
    pub rounds_left: usize,
    pub phase: AssemblyPhase,
    pub awaiting: bool,
}

/// The views of the epic identities an assembly has queued.
pub open spec fn reqs_queue(a: Assembly) -> Seq<(JiraServerV, Seq<char>)> {
    jk_pairs_view(a.epic_queue@)
}

impl Assembly {
    pub open spec fn wf(&self) -> bool {
        self.issues.wf() && self.epics.wf() && self.relations.wf()
    }

    /// Starts an assembly from a seed set: the store holds exactly the
    /// seed, the relation set is empty, the first frontier is the seed, and
    /// the given number of expansion rounds is ahead.
    pub fn new(
        foreign_relations: Vec<ForeignRelation>,
        seed: &[ReportIssue],
        dependencies_deepness: usize,
    ) -> (a: Self)
        ensures
            a.wf(),
            a.foreign_relations == foreign_relations,
            a.issues@ == spec_insert_all(Seq::<ReportIssueV>::empty(), issues_view(seed@)),
            a.epics@ == Seq::<ReportIssueV>::empty(),
            a.relations@ == Seq::<RelV>::empty(),
            issues_view(a.frontier@) == a.issues@,
            a.rounds_left == dependencies_deepness,
            a.phase is Expanding,
            !a.awaiting,
    {
        let issues = IssuesList::of_slice(seed);
        let frontier_list = issues.clone();
        let frontier = frontier_list.issues;
        Assembly {
            foreign_relations,
            issues,
            epics: IssuesList::new(),
            relations: RelationSet::new(),
            frontier,
            epic_queue: Vec::new(),
            rounds_left: dependencies_deepness,
            phase: AssemblyPhase::Expanding,
            awaiting: false,
        }
    }

    /// Whether the assembly is finished.
    pub fn is_done(&self) -> (b: bool)
        ensures
            b == (self.phase is Done),
    {
        match self.phase {
            AssemblyPhase::Done => true,
            _ => false,
        }
    }

    /// One step of the assembly. With rounds ahead, runs one expansion
    /// round over the frontier and returns the batched fetch plan for the
    /// missing link targets; with none, runs the epic pass. An empty plan
    /// means no fetch is owed and the caller simply calls `advance` again;
    /// a non-empty plan must be answered through `supply`.
    pub fn advance(&mut self) -> (reqs: Vec<FetchRequest>)
        requires
            old(self).wf(),
            !old(self).awaiting,
            old(self).phase is Expanding,
        ensures
            final(self).wf(),
            final(self).foreign_relations == old(self).foreign_relations,
            final(self).awaiting == (reqs@.len() > 0),
            // with no rounds ahead the expansion is over: the store and the
            // relation set are left exactly as they stand, and the epic
            // pass runs over the store snapshot
            old(self).rounds_left == 0 ==> {
                &&& final(self).issues == old(self).issues
                &&& final(self).relations == old(self).relations
                &&& final(self).rounds_left == 0
                &&& (final(self).epics@, reqs_queue(*final(self))) == spec_epics_pass(
                    old(self).issues@,
                    old(self).issues@,
                    Seq::<ReportIssueV>::empty(),
                    Seq::<(JiraServerV, Seq<char>)>::empty(),
                )
                &&& reqs_ids_set(reqs_view(reqs@)) == queued_ids_set(reqs_queue(*final(self)))
                &&& (reqs@.len() == 0 <==> reqs_queue(*final(self)).len() == 0)
                &&& final(self).phase == (if reqs@.len() == 0 {
                    AssemblyPhase::Done
                } else {
                    AssemblyPhase::ResolvingEpics
                })
                &&& forall|k: int|
                    0 <= k < reqs_queue(*final(self)).len() ==> !spec_contains_id(
                        old(self).issues@,
                        (reqs_queue(*final(self))[k].0.base_url, reqs_queue(*final(self))[k].1),
                    )
            },
            // with rounds ahead, one round runs: the round's relations join
            // the set, the store is untouched, and the plan covers exactly
            // the missing link targets
            old(self).rounds_left > 0 ==> {
                &&& final(self).issues == old(self).issues
                &&& final(self).epics == old(self).epics
                &&& final(self).rounds_left == old(self).rounds_left - 1
                &&& final(self).phase is Expanding
                &&& final(self).relations@.to_set() == old(self).relations@.to_set()
                    + spec_round_rels(
                    foreign_view(old(self).foreign_relations@),
                    issues_view(old(self).frontier@),
                )
                &&& reqs_ids_set(reqs_view(reqs@)) == spec_round_missing(
                    foreign_view(old(self).foreign_relations@),
                    old(self).issues@,
                    issues_view(old(self).frontier@),
                )
                &&& (reqs@.len() == 0 ==> issues_view(final(self).frontier@) == Seq::<
                    ReportIssueV,
                >::empty())
                &&& (reqs@.len() > 0 ==> final(self).frontier == old(self).frontier)
            },
    {
        if self.rounds_left == 0 {
            let (epics, to_fetch) = epics_plan(&self.issues);
            let reqs = group_by_instance(&to_fetch);
            let ghost tf = to_fetch@;
            proof {
                lemma_reqs_cover(reqs_view(reqs@), tf);
                lemma_fetch_ids_queued(tf);
                assert forall|k: int|
                    0 <= k < tf.len() implies !spec_contains_id(
                    old(self).issues@,
                    (jk_pairs_view(tf)[k].0.base_url, jk_pairs_view(tf)[k].1),
                ) by {
                    assert(fetch_ids(tf)[k] == (jk_pairs_view(tf)[k].0.base_url,
                    jk_pairs_view(tf)[k].1));
                }
                if tf.len() > 0 {
                    assert(reqs_have_id(reqs_view(reqs@), fetch_ids(tf)[0]));
                    assert(reqs@.len() > 0);
                }
                if reqs@.len() > 0 {
                    assert(exists|k: int|
                        #![trigger tf[k]]
                        0 <= k < tf.len() && tf[k].0@ == reqs@[0]@.jira);
                }
            }
            self.epics = epics;
            self.epic_queue = to_fetch;
            if reqs.len() == 0 {
                self.phase = AssemblyPhase::Done;
                self.awaiting = false;
            } else {
                self.phase = AssemblyPhase::ResolvingEpics;
                self.awaiting = true;
            }
            reqs
        } else {
            self.rounds_left = self.rounds_left - 1;
            let to_fetch = expand_round(
                self.foreign_relations.as_slice(),
                &self.issues,
                &mut self.relations,
                &self.frontier,
            );
            let reqs = group_by_instance(&to_fetch);
            proof {
                lemma_reqs_cover(reqs_view(reqs@), to_fetch@);
            }
            if reqs.len() == 0 {
                self.frontier = Vec::new();
                self.awaiting = false;
                proof {
                    assert(issues_view(self.frontier@) =~= Seq::<ReportIssueV>::empty());
                }
            } else {
                self.awaiting = true;
            }
            reqs
        }
    }

    /// Answers a fetch plan with the normalized records that came back.
    /// During expansion they join the store — first write wins, a record
    /// already held is kept — and the new ones become the next frontier;
    /// during epic resolution they join both the epic index and the store.
    /// A caller tolerating fetch failures may answer with only the records
    /// that arrived: the missing identities simply stay absent, and only
    /// the relations or epics that named them go unresolved.
    pub fn supply(&mut self, fetched: &Vec<ReportIssue>)
        requires
            old(self).wf(),
            old(self).awaiting,
            !(old(self).phase is Done),
        ensures
            final(self).wf(),
            !final(self).awaiting,
            final(self).foreign_relations == old(self).foreign_relations,
            final(self).relations == old(self).relations,
            final(self).rounds_left == old(self).rounds_left,
            old(self).phase is Expanding ==> {
                &&& final(self).phase is Expanding
                &&& final(self).epics == old(self).epics
                &&& final(self).issues@ == spec_absorb(old(self).issues@, issues_view(fetched@)).0
                &&& issues_view(final(self).frontier@) == spec_absorb(
                    old(self).issues@,
                    issues_view(fetched@),
                ).1
            },
            old(self).phase is ResolvingEpics ==> {
                &&& final(self).phase is Done
                &&& final(self).issues@ == spec_insert_all(
                    old(self).issues@,
                    issues_view(fetched@),
                )
                &&& final(self).epics@ == spec_insert_all(old(self).epics@, issues_view(fetched@))
            },
    {
        match self.phase {
            AssemblyPhase::Expanding => {
                let next = absorb_fetched(&mut self.issues, fetched);
                self.frontier = next;
                self.awaiting = false;
            },
            _ => {
                epics_absorb(&mut self.issues, &mut self.epics, fetched);
                self.phase = AssemblyPhase::Done;
                self.awaiting = false;
            },
        }
    }

    /// The assembled report data.
    pub fn finish(self) -> (r: ReportData)
        requires
            self.wf(),
            self.phase is Done,
        ensures
            r.issues == self.issues,
            r.epics == self.epics,
            r.relations == self.relations,
            r.issues.wf(),
            r.epics.wf(),
            r.relations.wf(),
    {
        ReportData { issues: self.issues, epics: self.epics, relations: self.relations }
    }
}

/// A fetch plan built by grouping covers exactly the listed identities.
pub proof fn lemma_reqs_cover(reqs: Seq<FetchRequestV>, v: Seq<(JiraServer, String)>)
    requires
        forall|k: int| 0 <= k < v.len() ==> reqs_have_id(reqs, fetch_ids(v)[k]),
        forall|p: int, q: int|
            #![trigger reqs[p].keys[q]]
            0 <= p < reqs.len() && 0 <= q < reqs[p].keys.len() ==> fetch_ids(v).contains(
                (reqs[p].jira.base_url, reqs[p].keys[q]),
            ),
    ensures
        reqs_ids_set(reqs) == fetch_ids(v).to_set(),
{
    assert forall|id: IdV| reqs_ids_set(reqs).contains(id) implies fetch_ids(v).to_set().contains(
        id,
    ) by {
        let p = choose|p: int| 0 <= p < reqs.len() && req_has_id(reqs[p], id);
        let q = choose|q: int| 0 <= q < reqs[p].keys.len() && reqs[p].keys[q] == id.1;
        assert(fetch_ids(v).contains((reqs[p].jira.base_url, reqs[p].keys[q])));
    }
    assert forall|id: IdV| fetch_ids(v).to_set().contains(id) implies reqs_ids_set(reqs).contains(
        id,
    ) by {
        let k = choose|k: int| 0 <= k < fetch_ids(v).len() && fetch_ids(v)[k] == id;
        assert(reqs_have_id(reqs, fetch_ids(v)[k]));
    }
    assert(reqs_ids_set(reqs) =~= fetch_ids(v).to_set());
}

/// Idempotent insertion, first write wins: inserting a record and then any
/// record of the same identity leaves the store holding the first record
/// under that identity — a re-insertion never changes the stored value.
pub proof fn lemma_insert_first_write_wins(
    s: Seq<ReportIssueV>,
    r1: ReportIssueV,
    r2: ReportIssueV,
)
    requires
        !spec_contains_id(s, spec_id_of(r1)),
        spec_id_of(r2) == spec_id_of(r1),
    ensures
        spec_insert1(spec_insert1(s, r1), r2) == spec_insert1(s, r1),
        spec_find(spec_insert1(spec_insert1(s, r1), r2), spec_id_of(r1)) == Some(r1),
{
    let s1 = spec_insert1(s, r1);
    assert(s1 == s.push(r1));
    assert(s1[s.len() as int] == r1);
    assert(spec_contains_id(s1, spec_id_of(r2)));
    lemma_find_skip(s1, spec_id_of(r1), s.len() as int);
    assert(s1.skip(s.len() as int) =~= seq![r1]);
    assert(spec_find(seq![r1], spec_id_of(r1)) == Some(r1));
    assert forall|j: int| 0 <= j < s.len() implies spec_id_of(s1[j]) != spec_id_of(r1) by {
        assert(s1[j] == s[j]);
    }
}

/// Relation dedup: inserting the same triple twice leaves the set as one
/// insertion does, and the triple then stands in the set exactly once.
pub proof fn lemma_relation_dedup(s: Seq<RelV>, r: RelV)
    requires
        s.no_duplicates(),
    ensures
        spec_rel_insert(spec_rel_insert(s, r), r) == spec_rel_insert(s, r),
        spec_rel_insert(spec_rel_insert(s, r), r).filter(|x: RelV| x == r).len() == 1,
{
    let s1 = spec_rel_insert(s, r);
    assert(s1.contains(r)) by {
        if !s.contains(r) {
            assert(s.push(r)[s.len() as int] == r);
        }
    }
    assert(s1.no_duplicates()) by {
        if !s.contains(r) {
            assert forall|a: int, b: int|
                0 <= a < b < s1.len() implies s1[a] != s1[b] by {
                if b < s.len() {
                    assert(s1[a] == s[a] && s1[b] == s[b]);
                } else {
                    assert(s1[b] == r);
                    assert(s1[a] == s[a]);
                    if s1[a] == r {
                        assert(s.contains(r));
                    }
                }
            }
        }
    }
    lemma_count_once(s1, r);
}

/// In a duplicate-free sequence that holds a value, the value stands
/// exactly once.
pub proof fn lemma_count_once(s: Seq<RelV>, r: RelV)
    requires
        s.no_duplicates(),
        s.contains(r),
    ensures
        s.filter(|x: RelV| x == r).len() == 1,
    decreases s.len(),
{
    reveal_with_fuel(Seq::filter, 2);
    let f = |x: RelV| x == r;
    if s.len() > 0 {
        assert(s =~= s.drop_last().push(s.last()));
        if s.last() == r {
            assert(!s.drop_last().contains(r)) by {
                if s.drop_last().contains(r) {
                    let k = choose|k: int|
                        0 <= k < s.drop_last().len() && s.drop_last()[k] == r;
                    assert(s[k] == r);
                    assert(s[s.len() - 1] == r);
                }
            }
            lemma_count_absent(s.drop_last(), r);
            assert(s.filter(f) == s.drop_last().filter(f).push(r));
        } else {
            assert(s.drop_last().contains(r)) by {
                let k = choose|k: int| 0 <= k < s.len() && s[k] == r;
                assert(s.drop_last()[k] == r);
            }
            assert(s.drop_last().no_duplicates()) by {
                assert forall|a: int, b: int|
                    0 <= a < b < s.drop_last().len() implies s.drop_last()[a] != s.drop_last()[
                b] by {
                    assert(s[a] == s.drop_last()[a] && s[b] == s.drop_last()[b]);
                }
            }
            lemma_count_once(s.drop_last(), r);
            assert(s.filter(f) == s.drop_last().filter(f));
        }
    }
}

/// A value absent from a sequence is filtered out entirely.
pub proof fn lemma_count_absent(s: Seq<RelV>, r: RelV)
    requires
        !s.contains(r),
    ensures
        s.filter(|x: RelV| x == r).len() == 0,
    decreases s.len(),
{
    reveal_with_fuel(Seq::filter, 2);
    let f = |x: RelV| x == r;
    if s.len() > 0 {
        assert(s =~= s.drop_last().push(s.last()));
        assert(s.last() != r) by {
            assert(s[s.len() - 1] == s.last());
        }
        assert(!s.drop_last().contains(r)) by {
            if s.drop_last().contains(r) {
                let k = choose|k: int| 0 <= k < s.drop_last().len() && s.drop_last()[k] == r;
                assert(s[k] == r);
            }
        }
        lemma_count_absent(s.drop_last(), r);
        assert(s.filter(f) == s.drop_last().filter(f));
    }
}

/// Cross-instance identity: two records with the same key on different
/// instances are never merged — after inserting both, each stands in the
/// store under its own identity.
pub proof fn lemma_cross_instance_identity(
    s: Seq<ReportIssueV>,
    r1: ReportIssueV,
    r2: ReportIssueV,
)
    requires
        !spec_contains_id(s, spec_id_of(r1)),
        !spec_contains_id(s, spec_id_of(r2)),
        r1.issue.key == r2.issue.key,
        r1.jira.base_url != r2.jira.base_url,
    ensures
        spec_find(spec_insert1(spec_insert1(s, r1), r2), spec_id_of(r1)) == Some(r1),
        spec_find(spec_insert1(spec_insert1(s, r1), r2), spec_id_of(r2)) == Some(r2),
{
    let s1 = spec_insert1(s, r1);
    assert(s1 == s.push(r1));
    assert(spec_id_of(r1) != spec_id_of(r2));
    assert(!spec_contains_id(s1, spec_id_of(r2))) by {
        if spec_contains_id(s1, spec_id_of(r2)) {
            let k = choose|k: int| 0 <= k < s1.len() && spec_id_of(s1[k]) == spec_id_of(r2);
            if k < s.len() {
                assert(s1[k] == s[k]);
            } else {
                assert(s1[k] == r1);
            }
        }
    }
    let s2 = spec_insert1(s1, r2);
    assert(s2 == s1.push(r2));
    // r1 is found at its own identity
    assert forall|j: int| 0 <= j < s.len() implies spec_id_of(s2[j]) != spec_id_of(r1) by {
        assert(s2[j] == s[j]);
    }
    lemma_find_skip(s2, spec_id_of(r1), s.len() as int);
    assert(s2.skip(s.len() as int) =~= seq![r1, r2]);
    assert(spec_find(seq![r1, r2], spec_id_of(r1)) == Some(r1));
    // r2 is found at its own identity
    assert forall|j: int| 0 <= j < s1.len() implies spec_id_of(s2[j]) != spec_id_of(r2) by {
        assert(s2[j] == s1[j]);
    }
    lemma_find_skip(s2, spec_id_of(r2), s1.len() as int);
    assert(s2.skip(s1.len() as int) =~= seq![r2]);
    assert(spec_find(seq![r2], spec_id_of(r2)) == Some(r2));
}

/// Foreign relation injection: a declared relation whose `from` endpoint is
/// a frontier issue produces the classified relation from that issue to the
/// `to` endpoint, whether or not any native link mentions it. In
/// particular, a `to` wording of `"blocks"` yields a `Block` relation from
/// the issue to the `to` endpoint.
pub proof fn lemma_foreign_relation_injected(
    foreign: Seq<ForeignRelationV>,
    frontier: Seq<ReportIssueV>,
    fi: int,
    k: int,
)
    requires
        0 <= fi < foreign.len(),
        0 <= k < frontier.len(),
        spec_id_of_subject(foreign[fi].from) == spec_id_of(frontier[k]),
        spec_classify(foreign[fi].to.kind) matches Some(cls) && !cls.1,
    ensures
        spec_round_rels(foreign, frontier).contains(
            (
                spec_id_of(frontier[k]),
                spec_id_of_subject(foreign[fi].to),
                spec_classify(foreign[fi].to.kind).unwrap().0,
            ),
        ),
{
    let issue = frontier[k];
    let id = spec_id_of(issue);
    let l: LinkV = (foreign[fi].to.jira, foreign[fi].to.issue, foreign[fi].to.kind, false);
    lemma_foreign_link_present(foreign, id, fi);
    let j = choose|j: int|
        0 <= j < spec_foreign_links(foreign, id).len() && spec_foreign_links(foreign, id)[j] == l;
    let all = spec_issue_links(foreign, issue);
    let native = (match issue.issue.fields.issuelinks {
        Some(ls) => spec_native_links(issue, ls),
        None => Seq::<LinkV>::empty(),
    });
    assert(all[native.len() + j] == l);
    let rel = (id, spec_id_of_subject(foreign[fi].to), spec_classify(foreign[fi].to.kind).unwrap().0);
    assert(spec_link_relation(issue, l) == Some(rel));
    assert(spec_links_rels(issue, all).contains(rel)) by {
        assert(spec_link_relation(issue, all[native.len() + j]) == Some(rel));
    }
    assert(spec_issue_rels(foreign, frontier[k]).contains(rel));
}

/// The `from`-side candidate of a declared foreign relation stands among
/// the foreign link candidates of the issue it names.
pub proof fn lemma_foreign_link_present(foreign: Seq<ForeignRelationV>, id: IdV, fi: int)
    requires
        0 <= fi < foreign.len(),
        spec_id_of_subject(foreign[fi].from) == id,
    ensures
        spec_foreign_links(foreign, id).contains(
            (foreign[fi].to.jira, foreign[fi].to.issue, foreign[fi].to.kind, false),
        ),
    decreases foreign.len(),
{
    let l: LinkV = (foreign[fi].to.jira, foreign[fi].to.issue, foreign[fi].to.kind, false);
    if fi == 0 {
        assert(spec_foreign_links_of(foreign[0], id)[0] == l);
        assert(spec_foreign_links(foreign, id)[0] == l);
    } else {
        assert(foreign.drop_first()[fi - 1] == foreign[fi]);
        lemma_foreign_link_present(foreign.drop_first(), id, fi - 1);
        let rest = spec_foreign_links(foreign.drop_first(), id);
        let j = choose|j: int| 0 <= j < rest.len() && rest[j] == l;
        let head = spec_foreign_links_of(foreign[0], id);
        assert(spec_foreign_links(foreign, id)[head.len() + j] == l);
    }
}

/// Epic resolution is fetch-minimal: under a plan built from a
/// duplicate-free queue, a queued epic identity is covered by exactly one
/// batch, and stands in that batch exactly once.
pub proof fn lemma_epic_fetch_minimal(reqs: Seq<FetchRequestV>, id: IdV, p1: int, p2: int, q1: int, q2: int)
    requires
        forall|a: int, b: int|
            0 <= a < b < reqs.len() ==> reqs[a].jira.base_url != reqs[b].jira.base_url,
        forall|p: int| 0 <= p < reqs.len() ==> reqs[p].keys.no_duplicates(),
        0 <= p1 < reqs.len(),
        0 <= p2 < reqs.len(),
        0 <= q1 < reqs[p1].keys.len(),
        0 <= q2 < reqs[p2].keys.len(),
        (reqs[p1].jira.base_url, reqs[p1].keys[q1]) == id,
        (reqs[p2].jira.base_url, reqs[p2].keys[q2]) == id,
    ensures
        p1 == p2,
        q1 == q2,
{
    if p1 != p2 {
        assert(reqs[p1].jira.base_url == reqs[p2].jira.base_url);
    }
    assert(reqs[p1].keys[q1] == reqs[p1].keys[q2]);
}

/// An epic pass over issues without epic references changes nothing.
pub proof fn lemma_epics_pass_without_refs(
    store: Seq<ReportIssueV>,
    todo: Seq<ReportIssueV>,
    epics: Seq<ReportIssueV>,
    fetch: Seq<(JiraServerV, Seq<char>)>,
)
    requires
        forall|i: int| 0 <= i < todo.len() ==> todo[i].custom_fields.epic_link is None,
    ensures
        spec_epics_pass(store, todo, epics, fetch) == (epics, fetch),
    decreases todo.len(),
{
    if todo.len() > 0 {
        assert(todo[0].custom_fields.epic_link is None);
        assert forall|i: int|
            0 <= i < todo.drop_first().len() implies todo.drop_first()[i].custom_fields.epic_link
            is None by {
            assert(todo.drop_first()[i] == todo[i + 1]);
        }
        lemma_epics_pass_without_refs(store, todo.drop_first(), epics, fetch);
    }
}

/// Depth bound: an assembly started with zero expansion rounds inserts no
/// relation — `advance` with no rounds ahead leaves the relation set as
/// `new` built it, empty — and when no seed issue declares an epic
/// reference, the epic pass indexes nothing and queues nothing, so the
/// store keeps exactly the seed through `finish`.
pub proof fn lemma_depth_zero_no_expansion(store: Seq<ReportIssueV>)
    requires
        forall|i: int| 0 <= i < store.len() ==> store[i].custom_fields.epic_link is None,
    ensures
        spec_epics_pass(
            store,
            store,
            Seq::<ReportIssueV>::empty(),
            Seq::<(JiraServerV, Seq<char>)>::empty(),
        ) == (Seq::<ReportIssueV>::empty(), Seq::<(JiraServerV, Seq<char>)>::empty()),
{
    lemma_epics_pass_without_refs(
        store,
        store,
        Seq::<ReportIssueV>::empty(),
        Seq::<(JiraServerV, Seq<char>)>::empty(),
    );
}

/// Appending one record to the batch inserts it last.
pub proof fn lemma_insert_all_snoc(s: Seq<ReportIssueV>, items: Seq<ReportIssueV>, x: ReportIssueV)
    ensures
        spec_insert_all(s, items.push(x)) == spec_insert1(spec_insert_all(s, items), x),
    decreases items.len(),
{
    if items.len() == 0 {
        assert(items.push(x)[0] == x);
        assert(items.push(x).drop_first() =~= Seq::<ReportIssueV>::empty());
        assert(spec_insert_all(s, items.push(x)) == spec_insert_all(
            spec_insert1(s, x),
            Seq::<ReportIssueV>::empty(),
        ));
        assert(spec_insert_all(spec_insert1(s, x), Seq::<ReportIssueV>::empty()) == spec_insert1(
            s,
            x,
        ));
        assert(spec_insert_all(s, items) == s);
    } else {
        assert(items.push(x)[0] == items[0]);
        assert(items.push(x).drop_first() =~= items.drop_first().push(x));
        lemma_insert_all_snoc(spec_insert1(s, items[0]), items.drop_first(), x);
    }
}

} // verus!
