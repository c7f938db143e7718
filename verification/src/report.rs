//! Report-level issue model: the entity tag an issue carries in one report
//! run, the normalized relation kinds, and the fixed classification table
//! that maps raw link terms to a kind and an orientation.

use vstd::prelude::*;

use crate::confluence::{spec_wiki_escape, wiki_escape};
use crate::dates::{spec_day_number, Date};
use crate::jira::{
    spec_custom_fields_of, spec_plan, spec_plan_dates_wf, FieldError, IssueCustomFields,
    IssueCustomFieldsV, JiraServer, JiraServerV,
};
use crate::jira_types::{IssueBean, IssueBeanV};
use crate::text::str_eq;
use vstd::string::StringExecFns;

verus! {

/// How an issue entered the current report run. The same issue can carry a
/// different tag in another run; the tag is not a property of the raw issue.
#[derive(Clone, Copy, PartialEq, Eq, Structural, Debug)]
pub enum ReportIssueType {
    ReportMember,
    ExternalDependency,
    Epic,
}

/// Normalized relation kind. Anything a provider reports is folded into one
/// of these three by the classification table, or dropped as unrecognized.
#[derive(Clone, Copy, PartialEq, Eq, Structural, Debug, Hash)]
pub enum RelationKind {
    Dependance,
    Block,
    Mention,
}

/// The fixed classification table. For a recognized raw term it yields the
/// normalized kind together with the orientation: `false` keeps the pair
/// `(issue, other)` as `(from, to)`, `true` swaps it. An unrecognized term
/// yields `None`: no relation is produced for it.
pub open spec fn spec_classify(term: Seq<char>) -> Option<(RelationKind, bool)> {
    if term == "dependance for"@ {
        Some((RelationKind::Dependance, false))
    } else if term == "depends on"@ {
        Some((RelationKind::Dependance, true))
    } else if term == "mentioned in"@ {
        Some((RelationKind::Mention, false))
    } else if term == "relates to"@ {
        Some((RelationKind::Mention, false))
    } else if term == "mentions"@ {
        Some((RelationKind::Mention, true))
    } else if term == "blocks"@ {
        Some((RelationKind::Block, false))
    } else if term == "is blocked by"@ {
        Some((RelationKind::Block, true))
    } else {
        None
    }
}

/// One issue as a report run holds it: the instance it came from, its
/// normalized record, the extracted custom fields, and the entity tag.
#[derive(Debug)]
pub struct ReportIssue {
    pub jira: JiraServer,
    pub issue: IssueBean,
    pub custom_fields: IssueCustomFields,
    pub entity_type: ReportIssueType,
}

#[verifier::ext_equal]
pub struct ReportIssueV {
    pub jira: JiraServerV,
    pub issue: IssueBeanV,
    pub custom_fields: IssueCustomFieldsV,
    pub entity_type: ReportIssueType,
}

impl View for ReportIssue {
    type V = ReportIssueV;

    open spec fn view(&self) -> ReportIssueV {
        ReportIssueV {
            jira: self.jira@,
            issue: self.issue@,
            custom_fields: self.custom_fields@,
            entity_type: self.entity_type,
        }
    }
}

impl Clone for ReportIssue {
    fn clone(&self) -> (r: Self)
        ensures
            r@ == self@,
    {
        let r = ReportIssue {
            jira: self.jira.clone(),
            issue: self.issue.clone(),
            custom_fields: self.custom_fields.clone(),
            entity_type: self.entity_type,
        };
        proof {
            assert(r@ =~= self@);
        }
        r
    }
}

impl ReportIssue {
    /// Builds the report-run form of a normalized issue under the given
    /// instance and entity tag, extracting the configured custom fields.
    /// Fails exactly when a custom field of the instance's configuration
    /// cannot be extracted.
    pub fn of_issuebean(jira: &JiraServer, issue: &IssueBean, entity_type: ReportIssueType) -> (r:
        Result<Self, FieldError>)
        ensures
            match r {
                Ok(ri) => {
                    &&& spec_custom_fields_of(jira.custom_fields@, issue@) == Ok::<_, FieldError>(
                        ri.custom_fields@,
                    )
                    &&& ri.jira@ == jira@
                    &&& ri.issue@ == issue@
                    &&& ri.entity_type == entity_type
                },
                Err(e) => spec_custom_fields_of(jira.custom_fields@, issue@) == Err::<
                    IssueCustomFieldsV,
                    _,
                >(e),
            },
    {
        let custom_fields = match IssueCustomFields::of_issue(jira, issue) {
            Ok(v) => v,
            Err(e) => {
                return Err(e);
            },
        };
        Ok(ReportIssue { jira: jira.clone(), issue: issue.clone(), custom_fields, entity_type })
    }
}

/// The browse address of an issue: the instance endpoint joined with the
/// issue's browse path.
pub open spec fn spec_issue_url(base: Seq<char>, key: Seq<char>) -> Seq<char> {
    base + "/browse/"@ + key
}

/// The wiki markup of a link to an epic: the epic's display name, linking
/// to its browse address.
pub open spec fn spec_epic_url(epic: ReportIssueV) -> Seq<char> {
    seq!['['] + (match epic.custom_fields.epic_name {
        Some(n) => n,
        None => Seq::<char>::empty(),
    }) + seq!['|'] + spec_issue_url(epic.jira.base_url, epic.issue.key) + seq![']']
}

impl ReportIssue {
    /// The browse address of this issue at its instance.
    pub fn url(&self) -> (r: String)
        ensures
            r@ == spec_issue_url(self@.jira.base_url, self@.issue.key),
    {
        let mut u = self.jira.base_url.clone();
        u.append("/browse/");
        u.append(self.issue.key.as_str());
        proof {
            assert(u@ =~= spec_issue_url(self@.jira.base_url, self@.issue.key));
        }
        u
    }

    /// The wiki markup of a link to this issue as an epic.
    pub fn confluence_wiki_epic_url(&self) -> (r: String)
        ensures
            r@ == spec_epic_url(self@),
    {
        let mut u = String::new();
        u.append("[");
        match &self.custom_fields.epic_name {
            Some(n) => u.append(n.as_str()),
            None => (),
        }
        u.append("|");
        u.append(self.jira.base_url.as_str());
        u.append("/browse/");
        u.append(self.issue.key.as_str());
        u.append("]");
        proof {
            reveal_strlit("[");
            reveal_strlit("|");
            reveal_strlit("]");
            assert(u@ =~= spec_epic_url(self@));
        }
        u
    }
}

/// The wiki markup of a link to an issue: the key linking to its browse
/// address, an optional forced line break, and the escaped status.
pub open spec fn spec_wiki_url_cell(issue: ReportIssueV, newlines: bool) -> Seq<char> {
    "["@ + issue.issue.key + "|"@ + spec_issue_url(issue.jira.base_url, issue.issue.key) + "] "@
        + (if newlines {
        "\\\\"@
    } else {
        Seq::<char>::empty()
    }) + " "@ + spec_wiki_escape(
        match issue.issue.fields.status_name {
            Some(st) => st,
            None => Seq::<char>::empty(),
        },
    )
}

/// The rendered planning window of an issue, colored by urgency against
/// the given day: red once the end is within three days (or past), green
/// once the start is; an unset bound counts as far in the future.
pub open spec fn spec_schedule_cell(cf: IssueCustomFieldsV, today: Date) -> Seq<char> {
    let duration = spec_plan(cf);
    let today_dn = spec_day_number(today);
    let end_dn = match cf.planned_end {
        Some(d) => spec_day_number(d),
        None => today_dn + 100000,
    };
    let start_dn = match cf.planned_start {
        Some(d) => spec_day_number(d),
        None => today_dn + 100000,
    };
    if end_dn < today_dn + 3 {
        "{color:red}"@ + duration + "{color}"@
    } else if start_dn < today_dn + 3 {
        "{color:green}"@ + duration + "{color}"@
    } else {
        duration
    }
}

impl ReportIssue {
    /// The wiki markup of a link to this issue, with its status.
    pub fn confluence_wiki_url(&self, newlines: bool) -> (r: String)
        ensures
            r@ == spec_wiki_url_cell(self@, newlines),
    {
        let mut u = String::new();
        u.append("[");
        u.append(self.issue.key.as_str());
        u.append("|");
        u.append(self.jira.base_url.as_str());
        u.append("/browse/");
        u.append(self.issue.key.as_str());
        u.append("] ");
        if newlines {
            u.append("\\\\");
        }
        u.append(" ");
        let status = match &self.issue.fields.status_name {
            Some(st) => wiki_escape(st.as_str()),
            None => wiki_escape(""),
        };
        u.append(status.as_str());
        proof {
            reveal_strlit("");
            assert(u@ =~= spec_wiki_url_cell(self@, newlines));
        }
        u
    }

    /// The rendered planning window of this issue, colored by urgency
    /// against the given day.
    pub fn confluence_wiki_schedule(&self, today: &Date) -> (r: String)
        requires
            spec_plan_dates_wf(self@.custom_fields),
            today.wf(),
        ensures
            r@ == spec_schedule_cell(self@.custom_fields, *today),
    {
        let duration = self.custom_fields.plan();
        let today_dn = today.day_number();
        let end_dn = match &self.custom_fields.planned_end {
            Some(d) => d.day_number(),
            None => today_dn + 100000,
        };
        let start_dn = match &self.custom_fields.planned_start {
            Some(d) => d.day_number(),
            None => today_dn + 100000,
        };
        if end_dn < today_dn + 3 {
            let mut out = String::new();
            out.append("{color:red}");
            out.append(duration.as_str());
            out.append("{color}");
            proof {
                assert(out@ =~= spec_schedule_cell(self@.custom_fields, *today));
            }
            out
        } else if start_dn < today_dn + 3 {
            let mut out = String::new();
            out.append("{color:green}");
            out.append(duration.as_str());
            out.append("{color}");
            proof {
                assert(out@ =~= spec_schedule_cell(self@.custom_fields, *today));
            }
            out
        } else {
            duration
        }
    }
}

/// A list of configured searches whose results seed one report.
#[derive(Debug)]
pub struct QuerySet(pub Vec<crate::config::JiraQuery>);

/// One configured report.
#[derive(Debug)]
pub enum Report {
    ConfluenceRoadmap(crate::report_confluence_roadmap::ConfluenceRoadmap),
    Worklog(crate::report_worklog::Worklog),
    StoryPoints(crate::report_storypoints::StoryPoints),
}

/// The outcome a report run hands back.
#[derive(Debug)]
pub enum ReportResult {
    ConfluenceRoadmap(crate::report_confluence_roadmap::ConfluenceRoadmap),
}

/// One endpoint of a manually declared cross-instance relation: the issue it
/// names, and the raw relation wording seen from the other endpoint's side.
#[derive(Debug)]
pub struct ForeignRelationSubject {
    pub jira: JiraServer,
    pub issue: String,
    pub kind: String,
}

#[verifier::ext_equal]
pub struct ForeignRelationSubjectV {
    pub jira: JiraServerV,
    pub issue: Seq<char>,
    pub kind: Seq<char>,
}

impl View for ForeignRelationSubject {
    type V = ForeignRelationSubjectV;

    open spec fn view(&self) -> ForeignRelationSubjectV {
        ForeignRelationSubjectV { jira: self.jira@, issue: self.issue@, kind: self.kind@ }
    }
}

impl Clone for ForeignRelationSubject {
    fn clone(&self) -> (r: Self)
        ensures
            r@ == self@,
    {
        let r = ForeignRelationSubject {
            jira: self.jira.clone(),
            issue: self.issue.clone(),
            kind: self.kind.clone(),
        };
        proof {
            assert(r@ =~= self@);
        }
        r
    }
}

/// A manually declared relation between two issues, usually on different
/// instances that have no native cross-linking. It joins the classifier's
/// input alongside the provider's own links.
#[derive(Debug)]
pub struct ForeignRelation {
    pub from: ForeignRelationSubject,
    pub to: ForeignRelationSubject,
}

#[verifier::ext_equal]
pub struct ForeignRelationV {
    pub from: ForeignRelationSubjectV,
    pub to: ForeignRelationSubjectV,
}

impl View for ForeignRelation {
    type V = ForeignRelationV;

    open spec fn view(&self) -> ForeignRelationV {
        ForeignRelationV { from: self.from@, to: self.to@ }
    }
}

impl Clone for ForeignRelation {
    fn clone(&self) -> (r: Self)
        ensures
            r@ == self@,
    {
        let r = ForeignRelation { from: self.from.clone(), to: self.to.clone() };
        proof {
            assert(r@ =~= self@);
        }
        r
    }
}

/// Classifies one raw relation term by the fixed table.
pub fn classify_term(term: &str) -> (r: Option<(RelationKind, bool)>)
    ensures
        r == spec_classify(term@),
{
    if str_eq(term, "dependance for") {
        Some((RelationKind::Dependance, false))
    } else if str_eq(term, "depends on") {
        Some((RelationKind::Dependance, true))
    } else if str_eq(term, "mentioned in") {
        Some((RelationKind::Mention, false))
    } else if str_eq(term, "relates to") {
        Some((RelationKind::Mention, false))
    } else if str_eq(term, "mentions") {
        Some((RelationKind::Mention, true))
    } else if str_eq(term, "blocks") {
        Some((RelationKind::Block, false))
    } else if str_eq(term, "is blocked by") {
        Some((RelationKind::Block, true))
    } else {
        None
    }
}

} // verus!
