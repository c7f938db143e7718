//! Value types of the worklog report: per-member issue tables with
//! configurable extra columns.

use vstd::prelude::*;
use vstd::string::{StringExecFns, StrSliceExecFns};

use crate::confluence::{spec_wiki_escape, wiki_escape, ConfluenceServer};
use crate::report::{ReportIssue, ReportIssueV};

verus! {

/// What an extra table column shows.
#[derive(Debug)]
pub enum ExtraField {
    /// The value of a named custom field.
    CustomField(String),
    /// The planned schedule.
    Schedule,
}

/// One extra table column: its header and what it shows.
#[derive(Debug)]
pub struct ExtraColumn {
    pub name: String,
    pub field: ExtraField,
}

/// One worklog member: a name and the searches whose results it covers.
#[derive(Debug)]
pub struct Member {
    pub name: String,
    pub query_set: crate::report::QuerySet,
    pub description: Option<String>,
}

/// One member together with the issues their searches returned.
#[derive(Debug)]
pub struct MemberResult {
    pub member: Member,
    pub issues: Vec<ReportIssue>,
}

/// A title cut to a character budget: over the limit, the first characters
/// and an ellipsis.
pub open spec fn spec_truncated(s: Seq<char>, limit: Option<usize>) -> Seq<char> {
    match limit {
        None => s,
        Some(v) => if s.len() > v {
            s.take(v as int).push(' ').push('\u{2026}')
        } else {
            s
        },
    }
}

/// The worklog task cell: the escaped, possibly truncated summary in bold,
/// the reason on its own line, and the author and assignee lines when the
/// report asks for them.
pub open spec fn spec_member_task_cell(issue: ReportIssueV, report: WorklogV) -> Seq<char> {
    let base = " *"@ + spec_wiki_escape(spec_truncated(issue.issue.fields.summary,
    report.title_length_limit)) + "*"@;
    let with_reason = match issue.custom_fields.reason {
        Some(rn) => base + "\\\\ \\\\"@ + spec_wiki_escape(rn),
        None => base,
    };
    let with_author = if report.show_author {
        with_reason + "\\\\ \\\\Автор: "@ + spec_wiki_escape(
            match issue.issue.fields.creator_display_name {
                Some(n) => n,
                None => "не определен"@,
            },
        )
    } else {
        with_reason
    };
    if report.show_assignee {
        match issue.issue.fields.assignee_display_name {
            Some(n) => with_author + "\\\\ \\\\Исполнитель: "@ + spec_wiki_escape(n),
            None => with_author,
        }
    } else {
        with_author
    }
}

impl MemberResult {
    /// The worklog task cell of an issue, under the report's options.
    pub fn get_task(&self, issue: &ReportIssue, report: &Worklog) -> (r: String)
        ensures
            r@ == spec_member_task_cell(issue@, report@),
    {
        let summary: String = match report.title_length_limit {
            None => issue.issue.fields.summary.clone(),
            Some(v) => {
                let s = issue.issue.fields.summary.as_str();
                if s.unicode_len() > v {
                    let mut cut = s.substring_char(0, v).to_owned();
                    cut.append(" ");
                    crate::text::push_char(&mut cut, ellipsis_char());
                    proof {
                        reveal_strlit(" ");
                        assert(cut@ =~= spec_truncated(issue@.issue.fields.summary,
                        report.title_length_limit));
                    }
                    cut
                } else {
                    issue.issue.fields.summary.clone()
                }
            },
        };
        let mut col = String::new();
        col.append(" *");
        let esc = wiki_escape(summary.as_str());
        col.append(esc.as_str());
        col.append("*");
        match &issue.custom_fields.reason {
            Some(rn) => {
                col.append("\\\\ \\\\");
                let e = wiki_escape(rn.as_str());
                col.append(e.as_str());
            },
            None => (),
        }
        if report.show_author {
            col.append("\\\\ \\\\Автор: ");
            let name = match &issue.issue.fields.creator_display_name {
                Some(n) => wiki_escape(n.as_str()),
                None => wiki_escape("не определен"),
            };
            col.append(name.as_str());
        }
        if report.show_assignee {
            match &issue.issue.fields.assignee_display_name {
                Some(n) => {
                    col.append("\\\\ \\\\Исполнитель: ");
                    let e = wiki_escape(n.as_str());
                    col.append(e.as_str());
                },
                None => (),
            }
        }
        proof {
            reveal_strlit("не определен");
            assert(col@ =~= spec_member_task_cell(issue@, report@));
        }
        col
    }
}

/// The worklog report: a wiki page of per-member issue tables.
#[derive(Debug)]
pub struct Worklog {
    pub confluence: ConfluenceServer,
    pub space: String,
    pub title: String,
    pub description: Option<String>,
    pub show_author: bool,
    pub show_assignee: bool,
    pub extra_columns: Vec<ExtraColumn>,
    pub title_length_limit: Option<usize>,
    pub members: Vec<Member>,
}

/// The parts of a worklog configuration that cell rendering reads.
#[verifier::ext_equal]
pub struct WorklogV {
    pub show_author: bool,
    pub show_assignee: bool,
    pub title_length_limit: Option<usize>,
}

impl View for Worklog {
    type V = WorklogV;

    open spec fn view(&self) -> WorklogV {
        WorklogV {
            show_author: self.show_author,
            show_assignee: self.show_assignee,
            title_length_limit: self.title_length_limit,
        }
    }
}

/// The ellipsis character appended to truncated titles.
fn ellipsis_char() -> (c: char)
    ensures
        c == '\u{2026}',
{
    '\u{2026}'
}

} // verus!
