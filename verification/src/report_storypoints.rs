//! Grouping for the story-point rollup: which title (or titles) an issue
//! is accounted under, per the configured grouping axis.

use vstd::prelude::*;

use crate::confluence::ConfluenceServer;
use crate::jira_types::strs_view;
use crate::report::{spec_epic_url, ReportIssue, ReportIssueV};
use crate::report_data::{spec_find, ReportData};
use crate::text::{clone_string_vec, clone_opt_string};

verus! {

/// The axis a rollup groups by.
#[derive(Clone, Copy, PartialEq, Eq, Structural, Debug)]
pub enum GroupBy {
    Reporter,
    Assignee,
    Epic,
    Label,
}

/// The column title of a grouping axis.
pub open spec fn spec_column_title(g: GroupBy) -> Seq<char> {
    match g {
        GroupBy::Reporter => "Автор"@,
        GroupBy::Assignee => "Исполнитель"@,
        GroupBy::Epic => "Эпик"@,
        GroupBy::Label => "Метка"@,
    }
}

/// The titles an issue is accounted under on an axis: the reporter's or
/// assignee's display name with a fallback, the epic link markup (empty
/// when the epic is unknown), or every label.
pub open spec fn spec_titles(g: GroupBy, issue: ReportIssueV, epics: Seq<ReportIssueV>) -> Seq<
    Seq<char>,
> {
    match g {
        GroupBy::Reporter => seq![
            match issue.issue.fields.creator_display_name {
                Some(n) => n,
                None => "не определен"@,
            },
        ],
        GroupBy::Assignee => seq![
            match issue.issue.fields.assignee_display_name {
                Some(n) => n,
                None => "не назначен"@,
            },
        ],
        GroupBy::Epic => seq![
            match issue.custom_fields.epic_link {
                None => Seq::<char>::empty(),
                Some(key) => match spec_find(epics, (issue.jira.base_url, key)) {
                    None => Seq::<char>::empty(),
                    Some(epic) => spec_epic_url(epic),
                },
            },
        ],
        GroupBy::Label => match issue.issue.fields.labels {
            Some(ls) => ls,
            None => Seq::empty(),
        },
    }
}

impl GroupBy {
    /// The column title of this grouping axis.
    pub fn get_column_title(&self) -> (r: &str)
        ensures
            r@ == spec_column_title(*self),
    {
        match self {
            GroupBy::Reporter => "Автор",
            GroupBy::Assignee => "Исполнитель",
            GroupBy::Epic => "Эпик",
            GroupBy::Label => "Метка",
        }
    }

    /// The titles the issue is accounted under on this axis, resolving
    /// epic references against the report's epic index.
    pub fn get_titles(&self, issue: &ReportIssue, data: &ReportData) -> (r: Vec<String>)
        ensures
            strs_view(r@) == spec_titles(*self, issue@, data.epics@),
    {
        match self {
            GroupBy::Reporter => {
                let name = match clone_opt_string(&issue.issue.fields.creator_display_name) {
                    Some(n) => n,
                    None => "не определен".to_owned(),
                };
                let mut v: Vec<String> = Vec::new();
                v.push(name);
                proof {
                    assert(strs_view(v@) =~= spec_titles(*self, issue@, data.epics@));
                }
                v
            },
            GroupBy::Assignee => {
                let name = match clone_opt_string(&issue.issue.fields.assignee_display_name) {
                    Some(n) => n,
                    None => "не назначен".to_owned(),
                };
                let mut v: Vec<String> = Vec::new();
                v.push(name);
                proof {
                    assert(strs_view(v@) =~= spec_titles(*self, issue@, data.epics@));
                }
                v
            },
            GroupBy::Epic => {
                let title = match &issue.custom_fields.epic_link {
                    None => String::new(),
                    Some(key) => match data.epics.get(&issue.jira, key.as_str()) {
                        None => {
                            proof {
                                crate::report_data::lemma_find_some_iff_contains(
                                    data.epics@,
                                    (issue.jira@.base_url, key@),
                                );
                            }
                            String::new()
                        },
                        Some(epic) => epic.confluence_wiki_epic_url(),
                    },
                };
                let mut v: Vec<String> = Vec::new();
                v.push(title);
                proof {
                    assert(strs_view(v@) =~= spec_titles(*self, issue@, data.epics@));
                }
                v
            },
            GroupBy::Label => {
                let v = match &issue.issue.fields.labels {
                    Some(ls) => clone_string_vec(ls),
                    None => Vec::new(),
                };
                proof {
                    assert(strs_view(v@) =~= spec_titles(*self, issue@, data.epics@));
                }
                v
            },
        }
    }
}

/// One rollup member: a name, the story-point field to sum, the grouping
/// axis, and the searches whose results it covers.
#[derive(Debug)]
pub struct Member {
    pub name: String,
    pub story_points_field: String,
    pub group_by: GroupBy,
    pub query_set: crate::report::QuerySet,
    pub description: Option<String>,
}

/// One member together with the issues its searches returned.
#[derive(Debug)]
pub struct MemberResult {
    pub member: Member,
    pub issues: Vec<ReportIssue>,
}

/// The story-point rollup report: a wiki page of per-member tables.
#[derive(Debug)]
pub struct StoryPoints {
    pub confluence: ConfluenceServer,
    pub space: String,
    pub title: String,
    pub description: Option<String>,
    pub members: Vec<Member>,
}

} // verus!
