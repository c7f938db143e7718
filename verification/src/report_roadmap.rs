//! Cell rendering for the roadmap tables: the task description cell and
//! the issue link cell.

use vstd::prelude::*;
use vstd::string::StringExecFns;

use crate::confluence::{spec_wiki_escape, wiki_escape};
use crate::report::{spec_issue_url, ReportIssue, ReportIssueV};

verus! {

/// The task description cell: the escaped summary in bold, the reason on
/// its own line when present, and the assignee line when a display name is
/// known — marked when the account is inactive.
pub open spec fn spec_task_cell(issue: ReportIssueV) -> Seq<char> {
    let base = " *"@ + spec_wiki_escape(issue.issue.fields.summary) + "*"@;
    let with_reason = match issue.custom_fields.reason {
        Some(rn) => base + "\\\\ \\\\"@ + spec_wiki_escape(rn),
        None => base,
    };
    match issue.issue.fields.assignee_display_name {
        None => with_reason,
        Some(name) => {
            let line = with_reason + "\\\\ \\\\ Исполнитель"@ + " "@ + spec_wiki_escape(name);
            if (match issue.issue.fields.assignee_active {
                Some(b) => b,
                None => true,
            }) {
                line
            } else {
                line + " *не активен!*"@
            }
        },
    }
}

/// The issue link cell: the key linking to the issue's browse address,
/// then the escaped status on a new line.
pub open spec fn spec_issue_link_cell(issue: ReportIssueV) -> Seq<char> {
    "["@ + issue.issue.key + "|"@ + spec_issue_url(issue.jira.base_url, issue.issue.key)
        + "] \\\\ "@ + spec_wiki_escape(
        match issue.issue.fields.status_name {
            Some(st) => st,
            None => Seq::<char>::empty(),
        },
    )
}

/// Renders the task description cell of an issue.
pub fn task_cell(issue: &ReportIssue) -> (r: String)
    ensures
        r@ == spec_task_cell(issue@),
{
    let mut col = String::new();
    col.append(" *");
    let summary = wiki_escape(issue.issue.fields.summary.as_str());
    col.append(summary.as_str());
    col.append("*");
    match &issue.custom_fields.reason {
        Some(rn) => {
            col.append("\\\\ \\\\");
            let e = wiki_escape(rn.as_str());
            col.append(e.as_str());
        },
        None => (),
    }
    match &issue.issue.fields.assignee_display_name {
        None => (),
        Some(name) => {
            col.append("\\\\ \\\\ Исполнитель");
            col.append(" ");
            let e = wiki_escape(name.as_str());
            col.append(e.as_str());
            let active = match issue.issue.fields.assignee_active {
                Some(b) => b,
                None => true,
            };
            if !active {
                col.append(" *не активен!*");
            }
        },
    }
    proof {
        assert(col@ =~= spec_task_cell(issue@));
    }
    col
}

/// The plain-text roadmap report.
#[derive(Clone, Copy, Debug)]
pub struct Roadmap;

impl Roadmap {
    /// The task description cell of an issue.
    pub fn get_task(&self, issue: &ReportIssue) -> (r: String)
        ensures
            r@ == spec_task_cell(issue@),
    {
        task_cell(issue)
    }

    /// The issue link cell of an issue.
    pub fn get_issue_link(&self, issue: &ReportIssue) -> (r: String)
        ensures
            r@ == spec_issue_link_cell(issue@),
    {
        let mut col = String::new();
        col.append("[");
        col.append(issue.issue.key.as_str());
        col.append("|");
        col.append(issue.jira.base_url.as_str());
        col.append("/browse/");
        col.append(issue.issue.key.as_str());
        col.append("] \\\\ ");
        let status = match &issue.issue.fields.status_name {
            Some(st) => wiki_escape(st.as_str()),
            None => wiki_escape(""),
        };
        col.append(status.as_str());
        proof {
            reveal_strlit("");
            assert(col@ =~= spec_issue_link_cell(issue@));
        }
        col
    }
}

} // verus!
