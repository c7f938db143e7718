//! The wiki roadmap report: its configuration and the task cell it shares
//! with the plain-text roadmap.

use vstd::prelude::*;
use vstd::string::StringExecFns;

use crate::confluence::{spec_wiki_escape, wiki_escape, ConfluenceServer};
use crate::dates::{decimal_string, spec_decimal, Date};
use crate::jira::spec_plan_dates_wf;
use crate::jira_types::seq_view;
use crate::report::{
    spec_issue_url, spec_schedule_cell, spec_wiki_url_cell, ForeignRelation, QuerySet,
    ReportIssue, ReportIssueV,
};
use crate::report_data::{issues_view, lemma_find_some_iff_contains, spec_find, ReportData};
use crate::report_roadmap::{spec_task_cell, task_cell};
use crate::text::{chars_to_string, clone_opt_string, spec_lex_le, str_eq, str_le};

verus! {

/// The epic-name column of an issue: the display name of the epic its
/// reference resolves to in the epic index, or nothing.
pub open spec fn spec_epic_name_cell(epics: Seq<ReportIssueV>, issue: ReportIssueV) -> Seq<char> {
    match issue.custom_fields.epic_link {
        None => Seq::<char>::empty(),
        Some(key) => match spec_find(epics, (issue.jira.base_url, key)) {
            None => Seq::<char>::empty(),
            Some(epic) => match epic.custom_fields.epic_name {
                Some(n) => n,
                None => Seq::<char>::empty(),
            },
        },
    }
}

/// One row of the general issue table.
pub open spec fn spec_general_row(
    epics: Seq<ReportIssueV>,
    issue: ReportIssueV,
    today: Date,
) -> Seq<char> {
    "| "@ + spec_task_cell(issue) + " | "@ + spec_epic_name_cell(epics, issue) + " | "@
        + spec_wiki_url_cell(issue, true) + " | "@ + spec_schedule_cell(
        issue.custom_fields,
        today,
    ) + " |\n"@
}

/// The general issue table: one row per given issue, in the given order.
pub open spec fn spec_general_list(
    epics: Seq<ReportIssueV>,
    issues: Seq<ReportIssueV>,
    today: Date,
) -> Seq<char>
    decreases issues.len(),
{
    if issues.len() == 0 {
        Seq::empty()
    } else {
        spec_general_row(epics, issues[0], today) + spec_general_list(
            epics,
            issues.drop_first(),
            today,
        )
    }
}

/// Appending one issue appends its row.
proof fn lemma_general_list_snoc(
    epics: Seq<ReportIssueV>,
    issues: Seq<ReportIssueV>,
    today: Date,
    x: ReportIssueV,
)
    ensures
        spec_general_list(epics, issues.push(x), today) == spec_general_list(epics, issues, today)
            + spec_general_row(epics, x, today),
    decreases issues.len(),
{
    if issues.len() == 0 {
        assert(issues.push(x)[0] == x);
        assert(issues.push(x).drop_first() =~= Seq::<ReportIssueV>::empty());
        assert(spec_general_list(epics, Seq::<ReportIssueV>::empty(), today) == Seq::<
            char,
        >::empty());
        assert(spec_general_list(epics, issues.push(x), today) =~= spec_general_row(
            epics,
            x,
            today,
        ));
        assert(spec_general_list(epics, issues, today) + spec_general_row(epics, x, today)
            =~= spec_general_row(epics, x, today));
    } else {
        assert(issues.push(x)[0] == issues[0]);
        assert(issues.push(x).drop_first() =~= issues.drop_first().push(x));
        lemma_general_list_snoc(epics, issues.drop_first(), today, x);
        assert(spec_general_row(epics, issues[0], today) + (spec_general_list(
            epics,
            issues.drop_first(),
            today,
        ) + spec_general_row(epics, x, today)) =~= (spec_general_row(epics, issues[0], today)
            + spec_general_list(epics, issues.drop_first(), today)) + spec_general_row(
            epics,
            x,
            today,
        ));
    }
}

/// Strict calendar order on days, by year, month and day.
pub open spec fn spec_date_lt(a: Date, b: Date) -> bool {
    if a.year != b.year {
        a.year < b.year
    } else if a.month != b.month {
        a.month < b.month
    } else {
        a.day < b.day
    }
}

/// The order the issue tables use: issues with a planned end first, by
/// that end; then by planned start the same way; creation stamp breaks the
/// remaining ties.
pub open spec fn spec_issue_le(a: ReportIssueV, b: ReportIssueV) -> bool {
    let ae = a.custom_fields.planned_end;
    let be = b.custom_fields.planned_end;
    if (ae is None) != (be is None) {
        ae is Some
    } else if ae is Some && be is Some && ae != be {
        spec_date_lt(ae.unwrap(), be.unwrap())
    } else {
        let asx = a.custom_fields.planned_start;
        let bs = b.custom_fields.planned_start;
        if (asx is None) != (bs is None) {
            asx is Some
        } else if asx is Some && bs is Some && asx != bs {
            spec_date_lt(asx.unwrap(), bs.unwrap())
        } else {
            spec_lex_le(a.issue.fields.created, b.issue.fields.created)
        }
    }
}

/// Insertion into a sorted run: before the first element the new one does
/// not follow.
pub open spec fn spec_insert_sorted(s: Seq<ReportIssueV>, x: ReportIssueV) -> Seq<ReportIssueV>
    decreases s.len(),
{
    if s.len() == 0 {
        seq![x]
    } else if spec_issue_le(s[0], x) {
        seq![s[0]] + spec_insert_sorted(s.drop_first(), x)
    } else {
        seq![x] + s
    }
}

/// Stable insertion sort under the issue order: each record in turn joins
/// the sorted run.
pub open spec fn spec_sort_issues(s: Seq<ReportIssueV>) -> Seq<ReportIssueV>
    decreases s.len(),
{
    if s.len() == 0 {
        Seq::empty()
    } else {
        spec_insert_sorted(spec_sort_issues(s.drop_last()), s.last())
    }
}

/// Inserting at the first position whose element does not precede the new
/// record splits the run there.
proof fn lemma_insert_sorted_at(s: Seq<ReportIssueV>, x: ReportIssueV, k: int)
    requires
        0 <= k <= s.len(),
        forall|j: int| 0 <= j < k ==> spec_issue_le(#[trigger] s[j], x),
        k < s.len() ==> !spec_issue_le(s[k], x),
    ensures
        spec_insert_sorted(s, x) == s.take(k) + seq![x] + s.skip(k),
    decreases k,
{
    if k == 0 {
        if s.len() == 0 {
            assert(spec_insert_sorted(s, x) =~= s.take(0) + seq![x] + s.skip(0));
        } else {
            assert(!spec_issue_le(s[0], x));
            assert(spec_insert_sorted(s, x) =~= s.take(0) + seq![x] + s.skip(0));
        }
    } else {
        assert(spec_issue_le(s[0], x));
        assert(s.drop_first() =~= s.skip(1));
        assert forall|j: int| 0 <= j < k - 1 implies spec_issue_le(
            #[trigger] s.skip(1)[j],
            x,
        ) by {
            assert(s.skip(1)[j] == s[j + 1]);
        }
        if k - 1 < s.skip(1).len() {
            assert(s.skip(1)[k - 1] == s[k]);
        }
        lemma_insert_sorted_at(s.skip(1), x, k - 1);
        assert(seq![s[0]] + (s.skip(1).take(k - 1) + seq![x] + s.skip(1).skip(k - 1)) =~= s.take(
            k,
        ) + seq![x] + s.skip(k));
    }
}

/// Compares two records in the issue-table order.
fn issue_le(a: &ReportIssue, b: &ReportIssue) -> (r: bool)
    ensures
        r == spec_issue_le(a@, b@),
{
    match (&a.custom_fields.planned_end, &b.custom_fields.planned_end) {
        (Some(_), None) => true,
        (None, Some(_)) => false,
        (Some(ad), Some(bd)) if ad != bd => date_lt(*ad, *bd),
        _ => {
            match (&a.custom_fields.planned_start, &b.custom_fields.planned_start) {
                (Some(_), None) => true,
                (None, Some(_)) => false,
                (Some(ad), Some(bd)) if ad != bd => date_lt(*ad, *bd),
                _ => str_le(
                    a.issue.fields.created.as_str(),
                    b.issue.fields.created.as_str(),
                ),
            }
        },
    }
}

/// Compares two days in calendar order.
fn date_lt(a: Date, b: Date) -> (r: bool)
    ensures
        r == spec_date_lt(a, b),
{
    if a.year != b.year {
        a.year < b.year
    } else if a.month != b.month {
        a.month < b.month
    } else {
        a.day < b.day
    }
}

/// Sorts records in the issue-table order, stably.
pub fn sort_issues(v: &Vec<ReportIssue>) -> (r: Vec<ReportIssue>)
    ensures
        issues_view(r@) == spec_sort_issues(issues_view(v@)),
{
    let ghost sv = issues_view(v@);
    let mut acc: Vec<ReportIssue> = Vec::new();
    proof {
        assert(sv.take(0) =~= Seq::<ReportIssueV>::empty());
        assert(issues_view(acc@) =~= spec_sort_issues(sv.take(0)));
    }
    let mut i: usize = 0;
    while i < v.len()
        invariant
            i <= v@.len(),
            sv == issues_view(v@),
            issues_view(acc@) == spec_sort_issues(sv.take(i as int)),
        decreases v@.len() - i,
    {
        let x = v[i].clone();
        let ghost accv = issues_view(acc@);
        let mut k: usize = 0;
        while k < acc.len() && issue_le(&acc[k], &x)
            invariant
                k <= acc@.len(),
                accv == issues_view(acc@),
                x@ == sv[i as int],
                forall|j: int| 0 <= j < k ==> spec_issue_le(#[trigger] accv[j], x@),
            decreases acc@.len() - k,
        {
            k += 1;
        }
        proof {
            lemma_insert_sorted_at(accv, x@, k as int);
        }
        acc.insert(k, x);
        proof {
            assert(issues_view(acc@) =~= accv.take(k as int) + seq![sv[i as int]] + accv.skip(
                k as int,
            ));
            assert(sv.take(i as int + 1).drop_last() =~= sv.take(i as int));
            assert(sv.take(i as int + 1).last() == sv[i as int]);
            assert(issues_view(acc@) =~= spec_sort_issues(sv.take(i as int + 1)));
        }
        i += 1;
    }
    proof {
        assert(sv.take(v@.len() as int) =~= sv);
    }
    acc
}

/// The records tagged as report members, in store order.
pub open spec fn spec_members(s: Seq<ReportIssueV>) -> Seq<ReportIssueV>
    decreases s.len(),
{
    if s.len() == 0 {
        Seq::empty()
    } else {
        (if s[0].entity_type is ReportMember {
            seq![s[0]]
        } else {
            Seq::empty()
        }) + spec_members(s.drop_first())
    }
}

/// Collects the records tagged as report members, in store order.
pub fn collect_members(issues: &Vec<ReportIssue>) -> (r: Vec<ReportIssue>)
    ensures
        issues_view(r@) == spec_members(issues_view(issues@)),
{
    let ghost sv = issues_view(issues@);
    let mut r: Vec<ReportIssue> = Vec::new();
    proof {
        assert(sv.skip(0) =~= sv);
        assert(issues_view(r@) + spec_members(sv.skip(0)) =~= spec_members(sv));
    }
    let mut i: usize = 0;
    while i < issues.len()
        invariant
            i <= issues@.len(),
            sv == issues_view(issues@),
            spec_members(sv) == issues_view(r@) + spec_members(sv.skip(i as int)),
        decreases issues@.len() - i,
    {
        let ghost pre = issues_view(r@);
        proof {
            assert(sv.skip(i as int)[0] == sv[i as int]);
            assert(sv.skip(i as int).drop_first() =~= sv.skip(i as int + 1));
        }
        let is_member = match issues[i].entity_type {
            crate::report::ReportIssueType::ReportMember => true,
            _ => false,
        };
        if is_member {
            r.push(issues[i].clone());
            proof {
                assert(issues_view(r@) =~= pre.push(sv[i as int]));
                assert(pre + (seq![sv[i as int]] + spec_members(sv.skip(i as int + 1)))
                    =~= issues_view(r@) + spec_members(sv.skip(i as int + 1)));
            }
        }
        i += 1;
    }
    proof {
        assert(sv.skip(issues@.len() as int) =~= Seq::<ReportIssueV>::empty());
        assert(issues_view(r@) + Seq::<ReportIssueV>::empty() =~= issues_view(r@));
    }
    r
}

/// Whether every record of the sequence carries real calendar days in its
/// planning fields.
pub open spec fn all_plan_dates_wf(s: Seq<ReportIssueV>) -> bool {
    forall|i: int| 0 <= i < s.len() ==> spec_plan_dates_wf((#[trigger] s[i]).custom_fields)
}

/// Filtering to members keeps planning dates well-formed and never grows
/// the sequence.
pub proof fn lemma_members_wf(s: Seq<ReportIssueV>)
    requires
        all_plan_dates_wf(s),
    ensures
        all_plan_dates_wf(spec_members(s)),
        spec_members(s).len() <= s.len(),
    decreases s.len(),
{
    if s.len() > 0 {
        assert forall|i: int| 0 <= i < s.drop_first().len() implies spec_plan_dates_wf(
            (#[trigger] s.drop_first()[i]).custom_fields,
        ) by {
            assert(s.drop_first()[i] == s[i + 1]);
        }
        lemma_members_wf(s.drop_first());
        let head = (if s[0].entity_type is ReportMember {
            seq![s[0]]
        } else {
            Seq::<ReportIssueV>::empty()
        });
        assert forall|i: int| 0 <= i < spec_members(s).len() implies spec_plan_dates_wf(
            (#[trigger] spec_members(s)[i]).custom_fields,
        ) by {
            if i < head.len() {
                assert(spec_members(s)[i] == s[0]);
            } else {
                assert(spec_members(s)[i] == spec_members(s.drop_first())[i - head.len()]);
            }
        }
    }
}

/// Sorted insertion keeps planning dates well-formed and grows the run by
/// one.
pub proof fn lemma_insert_sorted_wf(s: Seq<ReportIssueV>, x: ReportIssueV)
    requires
        all_plan_dates_wf(s),
        spec_plan_dates_wf(x.custom_fields),
    ensures
        all_plan_dates_wf(spec_insert_sorted(s, x)),
        spec_insert_sorted(s, x).len() == s.len() + 1,
    decreases s.len(),
{
    if s.len() == 0 {
    } else if spec_issue_le(s[0], x) {
        assert forall|i: int| 0 <= i < s.drop_first().len() implies spec_plan_dates_wf(
            (#[trigger] s.drop_first()[i]).custom_fields,
        ) by {
            assert(s.drop_first()[i] == s[i + 1]);
        }
        lemma_insert_sorted_wf(s.drop_first(), x);
        assert forall|i: int|
            0 <= i < spec_insert_sorted(s, x).len() implies spec_plan_dates_wf(
            (#[trigger] spec_insert_sorted(s, x)[i]).custom_fields,
        ) by {
            if i == 0 {
                assert(spec_insert_sorted(s, x)[0] == s[0]);
            } else {
                assert(spec_insert_sorted(s, x)[i] == spec_insert_sorted(s.drop_first(), x)[i
                    - 1]);
            }
        }
    } else {
        assert forall|i: int|
            0 <= i < spec_insert_sorted(s, x).len() implies spec_plan_dates_wf(
            (#[trigger] spec_insert_sorted(s, x)[i]).custom_fields,
        ) by {
            if i == 0 {
                assert(spec_insert_sorted(s, x)[0] == x);
            } else {
                assert(spec_insert_sorted(s, x)[i] == s[i - 1]);
            }
        }
    }
}

/// Sorting keeps planning dates well-formed and the length.
pub proof fn lemma_sort_issues_wf(s: Seq<ReportIssueV>)
    requires
        all_plan_dates_wf(s),
    ensures
        all_plan_dates_wf(spec_sort_issues(s)),
        spec_sort_issues(s).len() == s.len(),
    decreases s.len(),
{
    if s.len() > 0 {
        assert forall|i: int| 0 <= i < s.drop_last().len() implies spec_plan_dates_wf(
            (#[trigger] s.drop_last()[i]).custom_fields,
        ) by {
            assert(s.drop_last()[i] == s[i]);
        }
        lemma_sort_issues_wf(s.drop_last());
        assert(spec_plan_dates_wf(s.last().custom_fields));
        lemma_insert_sorted_wf(spec_sort_issues(s.drop_last()), s.last());
    }
}

/// The assignee name an issue is grouped under.
pub open spec fn spec_assignee_name(r: ReportIssueV) -> Option<Seq<char>> {
    r.issue.fields.assignee_display_name
}

/// The distinct assignee names of the given issues, in order of first
/// appearance, continuing from an already-collected prefix.
pub open spec fn spec_collect_names(
    s: Seq<ReportIssueV>,
    acc: Seq<Option<Seq<char>>>,
) -> Seq<Option<Seq<char>>>
    decreases s.len(),
{
    if s.len() == 0 {
        acc
    } else {
        let n = spec_assignee_name(s[0]);
        spec_collect_names(
            s.drop_first(),
            if acc.contains(n) {
                acc
            } else {
                acc.push(n)
            },
        )
    }
}

/// Group order of assignee names: the unassigned group first, named groups
/// in lexicographic order.
pub open spec fn spec_name_le(a: Option<Seq<char>>, b: Option<Seq<char>>) -> bool {
    match (a, b) {
        (Option::None, _) => true,
        (Option::Some(_), Option::None) => false,
        (Option::Some(x), Option::Some(y)) => spec_lex_le(x, y),
    }
}

/// Insertion into a sorted run of names.
pub open spec fn spec_insert_name(
    s: Seq<Option<Seq<char>>>,
    x: Option<Seq<char>>,
) -> Seq<Option<Seq<char>>>
    decreases s.len(),
{
    if s.len() == 0 {
        seq![x]
    } else if spec_name_le(s[0], x) {
        seq![s[0]] + spec_insert_name(s.drop_first(), x)
    } else {
        seq![x] + s
    }
}

/// Stable insertion sort of assignee names.
pub open spec fn spec_sort_names(s: Seq<Option<Seq<char>>>) -> Seq<Option<Seq<char>>>
    decreases s.len(),
{
    if s.len() == 0 {
        Seq::empty()
    } else {
        spec_insert_name(spec_sort_names(s.drop_last()), s.last())
    }
}

/// Inserting a name at the first position whose element does not precede
/// it splits the run there.
proof fn lemma_insert_name_at(s: Seq<Option<Seq<char>>>, x: Option<Seq<char>>, k: int)
    requires
        0 <= k <= s.len(),
        forall|j: int| 0 <= j < k ==> spec_name_le(#[trigger] s[j], x),
        k < s.len() ==> !spec_name_le(s[k], x),
    ensures
        spec_insert_name(s, x) == s.take(k) + seq![x] + s.skip(k),
    decreases k,
{
    if k == 0 {
        if s.len() == 0 {
            assert(spec_insert_name(s, x) =~= s.take(0) + seq![x] + s.skip(0));
        } else {
            assert(spec_insert_name(s, x) =~= s.take(0) + seq![x] + s.skip(0));
        }
    } else {
        assert(s.drop_first() =~= s.skip(1));
        assert forall|j: int| 0 <= j < k - 1 implies spec_name_le(#[trigger] s.skip(1)[j], x) by {
            assert(s.skip(1)[j] == s[j + 1]);
        }
        if k - 1 < s.skip(1).len() {
            assert(s.skip(1)[k - 1] == s[k]);
        }
        lemma_insert_name_at(s.skip(1), x, k - 1);
        assert(seq![s[0]] + (s.skip(1).take(k - 1) + seq![x] + s.skip(1).skip(k - 1)) =~= s.take(
            k,
        ) + seq![x] + s.skip(k));
    }
}

/// How many of the given issues are grouped under the name.
pub open spec fn spec_name_count(s: Seq<ReportIssueV>, name: Option<Seq<char>>) -> int
    decreases s.len(),
{
    if s.len() == 0 {
        0
    } else {
        (if spec_assignee_name(s[0]) == name {
            1int
        } else {
            0int
        }) + spec_name_count(s.drop_first(), name)
    }
}

/// One row of a per-assignee table.
pub open spec fn spec_team_row(
    epics: Seq<ReportIssueV>,
    issue: ReportIssueV,
    today: Date,
) -> Seq<char> {
    "| "@ + spec_wiki_escape(issue.issue.fields.summary) + " | "@ + spec_epic_name_cell(
        epics,
        issue,
    ) + " | "@ + spec_wiki_url_cell(issue, false) + " | "@ + spec_schedule_cell(
        issue.custom_fields,
        today,
    ) + " |\n"@
}

/// The rows of one assignee's table: the given issues grouped under the
/// name, in the given order.
pub open spec fn spec_team_rows(
    epics: Seq<ReportIssueV>,
    issues: Seq<ReportIssueV>,
    name: Option<Seq<char>>,
    today: Date,
) -> Seq<char>
    decreases issues.len(),
{
    if issues.len() == 0 {
        Seq::empty()
    } else {
        (if spec_assignee_name(issues[0]) == name {
            spec_team_row(epics, issues[0], today)
        } else {
            Seq::<char>::empty()
        }) + spec_team_rows(epics, issues.drop_first(), name, today)
    }
}

/// One assignee's section: a heading with the group's name and size, the
/// table header, and the rows.
pub open spec fn spec_team_section(
    epics: Seq<ReportIssueV>,
    issues: Seq<ReportIssueV>,
    name: Option<Seq<char>>,
    today: Date,
) -> Seq<char> {
    "\nh2. "@ + (match name {
        Some(n) => n,
        None => "Без исполнителя"@,
    }) + " ("@ + spec_decimal(spec_name_count(issues, name)) + " задач)\n\n"@
        + "|| Описание таска || Эпик || Jira-таск || Сроки ||\n"@ + spec_team_rows(
        epics,
        issues,
        name,
        today,
    )
}

/// The per-assignee sections, one per name, in the given order.
pub open spec fn spec_team_sections(
    epics: Seq<ReportIssueV>,
    issues: Seq<ReportIssueV>,
    names: Seq<Option<Seq<char>>>,
    today: Date,
) -> Seq<char>
    decreases names.len(),
{
    if names.len() == 0 {
        Seq::empty()
    } else {
        spec_team_section(epics, issues, names[0], today) + spec_team_sections(
            epics,
            issues,
            names.drop_first(),
            today,
        )
    }
}

/// The whole team chapter: a heading, then one section per distinct
/// assignee, unassigned first, the rest in name order.
pub open spec fn spec_team_roadmaps(
    epics: Seq<ReportIssueV>,
    issues: Seq<ReportIssueV>,
    today: Date,
) -> Seq<char> {
    "\nh1. Команда\n\n"@ + spec_team_sections(
        epics,
        issues,
        spec_sort_names(spec_collect_names(issues, Seq::empty())),
        today,
    )
}

/// The views of collected assignee names.
pub open spec fn names_view(s: Seq<Option<String>>) -> Seq<Option<Seq<char>>> {
    s.map_values(|o: Option<String>| crate::jira_types::opt_view(o))
}

/// Structural equality of optional names.
fn name_eq(a: &Option<String>, b: &Option<String>) -> (r: bool)
    ensures
        r == (crate::jira_types::opt_view(*a) == crate::jira_types::opt_view(*b)),
{
    match (a, b) {
        (Option::None, Option::None) => true,
        (Option::Some(x), Option::Some(y)) => str_eq(x.as_str(), y.as_str()),
        _ => false,
    }
}

/// Group order of optional names.
fn name_le(a: &Option<String>, b: &Option<String>) -> (r: bool)
    ensures
        r == spec_name_le(
            crate::jira_types::opt_view(*a),
            crate::jira_types::opt_view(*b),
        ),
{
    match (a, b) {
        (Option::None, _) => true,
        (Option::Some(_), Option::None) => false,
        (Option::Some(x), Option::Some(y)) => str_le(x.as_str(), y.as_str()),
    }
}

/// Whether a name list already holds the name.
fn names_contain(v: &Vec<Option<String>>, n: &Option<String>) -> (r: bool)
    ensures
        r == names_view(v@).contains(crate::jira_types::opt_view(*n)),
{
    let mut i: usize = 0;
    while i < v.len()
        invariant
            i <= v@.len(),
            forall|j: int|
                0 <= j < i ==> names_view(v@)[j] != crate::jira_types::opt_view(*n),
        decreases v@.len() - i,
    {
        if name_eq(&v[i], n) {
            proof {
                assert(names_view(v@)[i as int] == crate::jira_types::opt_view(*n));
            }
            return true;
        }
        i += 1;
    }
    false
}

/// Sorts assignee names into group order, stably.
fn sort_names(v: &Vec<Option<String>>) -> (r: Vec<Option<String>>)
    ensures
        names_view(r@) == spec_sort_names(names_view(v@)),
{
    let ghost sv = names_view(v@);
    let mut acc: Vec<Option<String>> = Vec::new();
    proof {
        assert(sv.take(0) =~= Seq::<Option<Seq<char>>>::empty());
        assert(names_view(acc@) =~= spec_sort_names(sv.take(0)));
    }
    let mut i: usize = 0;
    while i < v.len()
        invariant
            i <= v@.len(),
            sv == names_view(v@),
            names_view(acc@) == spec_sort_names(sv.take(i as int)),
        decreases v@.len() - i,
    {
        let x = clone_opt_string(&v[i]);
        let ghost accv = names_view(acc@);
        let mut k: usize = 0;
        while k < acc.len() && name_le(&acc[k], &x)
            invariant
                k <= acc@.len(),
                accv == names_view(acc@),
                crate::jira_types::opt_view(x) == sv[i as int],
                forall|j: int| 0 <= j < k ==> spec_name_le(#[trigger] accv[j], sv[i as int]),
            decreases acc@.len() - k,
        {
            k += 1;
        }
        proof {
            lemma_insert_name_at(accv, sv[i as int], k as int);
        }
        acc.insert(k, x);
        proof {
            assert(names_view(acc@) =~= accv.take(k as int) + seq![sv[i as int]] + accv.skip(
                k as int,
            ));
            assert(sv.take(i as int + 1).drop_last() =~= sv.take(i as int));
            assert(sv.take(i as int + 1).last() == sv[i as int]);
            assert(names_view(acc@) =~= spec_sort_names(sv.take(i as int + 1)));
        }
        i += 1;
    }
    proof {
        assert(sv.take(v@.len() as int) =~= sv);
    }
    acc
}

/// Whether an issue references this epic.
pub open spec fn spec_refs_epic(issue: ReportIssueV, epic: ReportIssueV) -> bool {
    match issue.custom_fields.epic_link {
        Some(key) => issue.jira.base_url == epic.jira.base_url && key == epic.issue.key,
        None => false,
    }
}

/// Whether some given issue references this epic.
pub open spec fn spec_epic_referenced(issues: Seq<ReportIssueV>, epic: ReportIssueV) -> bool {
    exists|i: int| 0 <= i < issues.len() && spec_refs_epic(#[trigger] issues[i], epic)
}

/// One row of the epic table.
pub open spec fn spec_epic_row(epic: ReportIssueV, name: Seq<char>) -> Seq<char> {
    "| ["@ + spec_wiki_escape(name) + "|"@ + spec_issue_url(epic.jira.base_url, epic.issue.key)
        + "] | "@ + spec_wiki_escape(
        match epic.custom_fields.reason {
            Some(rn) => rn,
            None => Seq::<char>::empty(),
        },
    ) + " |\n"@
}

/// The epic table rows: one per indexed epic that a given issue references
/// and that carries a display name, in index order.
pub open spec fn spec_epics_rows(
    issues: Seq<ReportIssueV>,
    epics: Seq<ReportIssueV>,
) -> Seq<char>
    decreases epics.len(),
{
    if epics.len() == 0 {
        Seq::empty()
    } else {
        (match epics[0].custom_fields.epic_name {
            Some(name) => if spec_epic_referenced(issues, epics[0]) {
                spec_epic_row(epics[0], name)
            } else {
                Seq::<char>::empty()
            },
            None => Seq::<char>::empty(),
        }) + spec_epics_rows(issues, epics.drop_first())
    }
}

/// Appending one epic appends its row.
proof fn lemma_epics_rows_snoc(
    issues: Seq<ReportIssueV>,
    epics: Seq<ReportIssueV>,
    x: ReportIssueV,
)
    ensures
        spec_epics_rows(issues, epics.push(x)) == spec_epics_rows(issues, epics) + (
        match x.custom_fields.epic_name {
            Some(name) => if spec_epic_referenced(issues, x) {
                spec_epic_row(x, name)
            } else {
                Seq::<char>::empty()
            },
            None => Seq::<char>::empty(),
        }),
    decreases epics.len(),
{
    let tail = (match x.custom_fields.epic_name {
        Some(name) => if spec_epic_referenced(issues, x) {
            spec_epic_row(x, name)
        } else {
            Seq::<char>::empty()
        },
        None => Seq::<char>::empty(),
    });
    if epics.len() == 0 {
        assert(epics.push(x)[0] == x);
        assert(epics.push(x).drop_first() =~= Seq::<ReportIssueV>::empty());
        assert(spec_epics_rows(issues, Seq::<ReportIssueV>::empty()) == Seq::<char>::empty());
        assert(spec_epics_rows(issues, epics.push(x)) =~= tail);
        assert(spec_epics_rows(issues, epics) + tail =~= tail);
    } else {
        assert(epics.push(x)[0] == epics[0]);
        assert(epics.push(x).drop_first() =~= epics.drop_first().push(x));
        lemma_epics_rows_snoc(issues, epics.drop_first(), x);
        let head = (match epics[0].custom_fields.epic_name {
            Some(name) => if spec_epic_referenced(issues, epics[0]) {
                spec_epic_row(epics[0], name)
            } else {
                Seq::<char>::empty()
            },
            None => Seq::<char>::empty(),
        });
        assert(head + (spec_epics_rows(issues, epics.drop_first()) + tail) =~= (head
            + spec_epics_rows(issues, epics.drop_first())) + tail);
    }
}

/// Whether the epic table is rendered when the configuration leaves it
/// unset.
pub fn default_show_epics() -> (r: bool)
    ensures
        r,
{
    true
}

/// Whether the per-assignee tables are rendered when the configuration
/// leaves it unset.
pub fn default_show_team_roadmaps() -> (r: bool)
    ensures
        r,
{
    true
}

/// How many expansion rounds run when the configuration leaves the depth
/// unset.
pub fn default_dependencies_deepness() -> (r: usize)
    ensures
        r == 1,
{
    1
}

/// The wiki roadmap report: the searches that seed it, the page it lands
/// on, which sections are rendered, the expansion depth, and the declared
/// cross-instance relations.
#[derive(Debug)]
pub struct ConfluenceRoadmap {
    pub query_set: QuerySet,
    pub confluence: ConfluenceServer,
    pub space: String,
    pub title: String,
    pub show_epics: bool,
    pub show_team_roadmaps: bool,
    pub dependencies_deepness: usize,
    pub foreign_relations: Vec<ForeignRelation>,
}

/// The whole roadmap page: the sorted issue table, the epic table and the
/// team chapter when enabled, and the dependency-diagram anchor.
pub open spec fn spec_generate(
    show_epics: bool,
    show_team_roadmaps: bool,
    epics: Seq<ReportIssueV>,
    store: Seq<ReportIssueV>,
    today: Date,
) -> Seq<char> {
    let sorted = spec_sort_issues(spec_members(store));
    "\nh1. Задачи\n\n|| Описание таска || Эпик || Jira-таск || Сроки ||\n"@
        + spec_general_list(epics, sorted, today) + "\n"@ + (if show_epics {
        "\nh1. Эпики\n\n|| Эпик || Описание эпика ||\n"@ + spec_epics_rows(sorted, epics)
            + "\n"@
    } else {
        Seq::<char>::empty()
    }) + (if show_team_roadmaps {
        spec_team_roadmaps(epics, sorted, today) + "\n"@
    } else {
        Seq::<char>::empty()
    }) + "\nh1. Граф зависимостей\n\n!dependency_graph.svg!\n"@
}

impl ConfluenceRoadmap {
    /// The task description cell of an issue.
    pub fn get_task(&self, issue: &ReportIssue) -> (r: String)
        ensures
            r@ == spec_task_cell(issue@),
    {
        task_cell(issue)
    }

    /// Renders the whole roadmap page: report members sorted by their
    /// planning window, then the enabled sections, then the anchor of the
    /// dependency diagram.
    pub fn generate(&self, data: &ReportData, today: &Date) -> (r: String)
        requires
            today.wf(),
            all_plan_dates_wf(data.issues@),
            data.issues@.len() < 4294967295,
        ensures
            r@ == spec_generate(
                self.show_epics,
                self.show_team_roadmaps,
                data.epics@,
                data.issues@,
                *today,
            ),
    {
        let members = collect_members(&data.issues.issues);
        let sorted = sort_issues(&members);
        proof {
            lemma_members_wf(data.issues@);
            lemma_sort_issues_wf(issues_view(members@));
        }
        let mut refs: Vec<&ReportIssue> = Vec::new();
        let mut k: usize = 0;
        while k < sorted.len()
            invariant
                k <= sorted@.len(),
                refs@.len() == k,
                forall|j: int| 0 <= j < k ==> (#[trigger] refs@[j])@ == sorted@[j]@,
            decreases sorted@.len() - k,
        {
            refs.push(&sorted[k]);
            k += 1;
        }
        proof {
            assert(seq_view(refs@) =~= issues_view(sorted@));
            assert forall|j: int|
                0 <= j < refs@.len() implies spec_plan_dates_wf(
                (#[trigger] refs@[j])@.custom_fields,
            ) by {
                assert(refs@[j]@ == issues_view(sorted@)[j]);
            }
        }
        let mut out = String::new();
        out.append("\nh1. Задачи\n\n|| Описание таска || Эпик || Jira-таск || Сроки ||\n");
        let list = self.make_general_list(data, refs.as_slice(), today);
        out.append(list.as_str());
        out.append("\n");
        if self.show_epics {
            let epics_text = self.make_epics(data, refs.as_slice());
            out.append(epics_text.as_str());
            out.append("\n");
        }
        if self.show_team_roadmaps {
            let team_text = self.make_team_roadmaps(data, refs.as_slice(), today);
            out.append(team_text.as_str());
            out.append("\n");
        }
        out.append("\nh1. Граф зависимостей\n\n!dependency_graph.svg!\n");
        proof {
            assert(out@ =~= spec_generate(
                self.show_epics,
                self.show_team_roadmaps,
                data.epics@,
                data.issues@,
                *today,
            ));
        }
        out
    }

    /// The general issue table: one row per given issue, in the given
    /// order, resolving epic references against the report's epic index.
    #[verifier::rlimit(60)]
    pub fn make_general_list(
        &self,
        data: &ReportData,
        issues: &[&ReportIssue],
        today: &Date,
    ) -> (r: String)
        requires
            today.wf(),
            forall|i: int|
                0 <= i < issues@.len() ==> spec_plan_dates_wf(
                    (#[trigger] issues@[i])@.custom_fields,
                ),
        ensures
            r@ == spec_general_list(data.epics@, seq_view(issues@), *today),
    {
        let ghost isv = seq_view(issues@);
        let mut out = String::new();
        proof {
            assert(isv.take(0) =~= Seq::<ReportIssueV>::empty());
            assert(out@ =~= spec_general_list(data.epics@, isv.take(0), *today));
        }
        let mut i: usize = 0;
        while i < issues.len()
            invariant
                i <= issues@.len(),
                isv == seq_view(issues@),
                today.wf(),
                forall|k: int|
                    0 <= k < issues@.len() ==> spec_plan_dates_wf(
                        (#[trigger] issues@[k])@.custom_fields,
                    ),
                out@ == spec_general_list(data.epics@, isv.take(i as int), *today),
            decreases issues@.len() - i,
        {
            proof {
                lemma_general_list_snoc(data.epics@, isv.take(i as int), *today, isv[i as int]);
                assert(isv.take(i as int).push(isv[i as int]) =~= isv.take(i as int + 1));
            }
            let issue = issues[i];
            let col1 = task_cell(issue);
            let col2 = match &issue.custom_fields.epic_link {
                None => String::new(),
                Some(key) => match data.epics.get(&issue.jira, key.as_str()) {
                    None => {
                        proof {
                            lemma_find_some_iff_contains(
                                data.epics@,
                                (issue.jira@.base_url, key@),
                            );
                        }
                        String::new()
                    },
                    Some(epic) => match &epic.custom_fields.epic_name {
                        Some(n) => n.clone(),
                        None => String::new(),
                    },
                },
            };
            let col3 = issue.confluence_wiki_url(true);
            let col4 = issue.confluence_wiki_schedule(today);
            out.append("| ");
            out.append(col1.as_str());
            out.append(" | ");
            out.append(col2.as_str());
            out.append(" | ");
            out.append(col3.as_str());
            out.append(" | ");
            out.append(col4.as_str());
            out.append(" |\n");
            proof {
                assert(out@ =~= spec_general_list(data.epics@, isv.take(i as int + 1), *today));
            }
            i += 1;
        }
        proof {
            assert(isv.take(issues@.len() as int) =~= isv);
        }
        out
    }

    /// The team chapter: a heading, then one section per distinct
    /// assignee of the given issues — the unassigned group first, the rest
    /// in name order — each section a table of that assignee's issues.
    #[verifier::rlimit(100)]
    pub fn make_team_roadmaps(
        &self,
        data: &ReportData,
        issues: &[&ReportIssue],
        today: &Date,
    ) -> (r: String)
        requires
            today.wf(),
            issues@.len() < 4294967295,
            forall|i: int|
                0 <= i < issues@.len() ==> spec_plan_dates_wf(
                    (#[trigger] issues@[i])@.custom_fields,
                ),
        ensures
            r@ == spec_team_roadmaps(data.epics@, seq_view(issues@), *today),
    {
        let ghost isv = seq_view(issues@);
        // distinct assignee names, in order of first appearance
        let mut names: Vec<Option<String>> = Vec::new();
        proof {
            assert(isv.skip(0) =~= isv);
            assert(names_view(names@) =~= Seq::<Option<Seq<char>>>::empty());
        }
        let mut i: usize = 0;
        while i < issues.len()
            invariant
                i <= issues@.len(),
                isv == seq_view(issues@),
                spec_collect_names(isv, Seq::empty()) == spec_collect_names(
                    isv.skip(i as int),
                    names_view(names@),
                ),
            decreases issues@.len() - i,
        {
            proof {
                assert(isv.skip(i as int)[0] == isv[i as int]);
                assert(isv.skip(i as int).drop_first() =~= isv.skip(i as int + 1));
            }
            let ghost pre = names_view(names@);
            let n = clone_opt_string(&issues[i].issue.fields.assignee_display_name);
            proof {
                assert(crate::jira_types::opt_view(n) == spec_assignee_name(isv[i as int]));
            }
            if !names_contain(&names, &n) {
                names.push(n);
                proof {
                    assert(names_view(names@) =~= pre.push(spec_assignee_name(isv[i as int])));
                }
            }
            i += 1;
        }
        proof {
            assert(isv.skip(issues@.len() as int) =~= Seq::<ReportIssueV>::empty());
        }
        let sorted = sort_names(&names);
        let ghost snv = names_view(sorted@);
        proof {
            assert(snv == spec_sort_names(spec_collect_names(isv, Seq::empty())));
        }
        let mut out = String::new();
        out.append("\nh1. Команда\n\n");
        let ghost header = out@;
        proof {
            assert(snv.skip(0) =~= snv);
            assert(header + spec_team_sections(data.epics@, isv, snv, *today) =~= out@
                + spec_team_sections(data.epics@, isv, snv.skip(0), *today));
        }
        let mut p: usize = 0;
        while p < sorted.len()
            invariant
                p <= sorted@.len(),
                isv == seq_view(issues@),
                snv == names_view(sorted@),
                today.wf(),
                forall|k: int|
                    0 <= k < issues@.len() ==> spec_plan_dates_wf(
                        (#[trigger] issues@[k])@.custom_fields,
                    ),
                issues@.len() < 4294967295,
                header == "\nh1. Команда\n\n"@,
                header + spec_team_sections(data.epics@, isv, snv, *today) == out@
                    + spec_team_sections(data.epics@, isv, snv.skip(p as int), *today),
            decreases sorted@.len() - p,
        {
            proof {
                assert(snv.skip(p as int)[0] == snv[p as int]);
                assert(snv.skip(p as int).drop_first() =~= snv.skip(p as int + 1));
            }
            let name = &sorted[p];
            let ghost nv = snv[p as int];
            proof {
                assert(crate::jira_types::opt_view(*name) == nv);
            }
            // size of this assignee's group
            let mut count: usize = 0;
            proof {
                assert(isv.skip(0) =~= isv);
            }
            let mut j: usize = 0;
            while j < issues.len()
                invariant
                    j <= issues@.len(),
                    isv == seq_view(issues@),
                    nv == crate::jira_types::opt_view(*name),
                    count <= j,
                    spec_name_count(isv, nv) == count + spec_name_count(
                        isv.skip(j as int),
                        nv,
                    ),
                decreases issues@.len() - j,
            {
                proof {
                    assert(isv.skip(j as int)[0] == isv[j as int]);
                    assert(isv.skip(j as int).drop_first() =~= isv.skip(j as int + 1));
                }
                if name_eq(&issues[j].issue.fields.assignee_display_name, name) {
                    count += 1;
                }
                j += 1;
            }
            proof {
                assert(isv.skip(issues@.len() as int) =~= Seq::<ReportIssueV>::empty());
                assert(spec_name_count(isv, nv) == count);
            }
            let ghost sect_start = out@;
            out.append("\nh2. ");
            match name {
                Some(n) => out.append(n.as_str()),
                None => out.append("Без исполнителя"),
            }
            out.append(" (");
            let digits = decimal_string(count as u32);
            let digits_str = chars_to_string(&digits);
            out.append(digits_str.as_str());
            out.append(" задач)\n\n");
            out.append("|| Описание таска || Эпик || Jira-таск || Сроки ||\n");
            let ghost rows_start = out@;
            proof {
                reveal_strlit("Без исполнителя");
                assert(rows_start =~= sect_start + "\nh2. "@ + (match nv {
                    Some(n) => n,
                    None => "Без исполнителя"@,
                }) + " ("@ + spec_decimal(spec_name_count(isv, nv)) + " задач)\n\n"@
                    + "|| Описание таска || Эпик || Jira-таск || Сроки ||\n"@);
                assert(isv.skip(0) =~= isv);
                assert(rows_start + spec_team_rows(data.epics@, isv, nv, *today) =~= out@
                    + spec_team_rows(data.epics@, isv.skip(0), nv, *today));
            }
            let mut j2: usize = 0;
            while j2 < issues.len()
                invariant
                    j2 <= issues@.len(),
                    isv == seq_view(issues@),
                    nv == crate::jira_types::opt_view(*name),
                    today.wf(),
                    forall|k: int|
                        0 <= k < issues@.len() ==> spec_plan_dates_wf(
                            (#[trigger] issues@[k])@.custom_fields,
                        ),
                    rows_start + spec_team_rows(data.epics@, isv, nv, *today) == out@
                        + spec_team_rows(data.epics@, isv.skip(j2 as int), nv, *today),
                decreases issues@.len() - j2,
            {
                proof {
                    assert(isv.skip(j2 as int)[0] == isv[j2 as int]);
                    assert(isv.skip(j2 as int).drop_first() =~= isv.skip(j2 as int + 1));
                }
                let issue = issues[j2];
                if name_eq(&issue.issue.fields.assignee_display_name, name) {
                    let ghost row_start = out@;
                    let col1 = wiki_escape(issue.issue.fields.summary.as_str());
                    let col2 = match &issue.custom_fields.epic_link {
                        None => String::new(),
                        Some(key) => match data.epics.get(&issue.jira, key.as_str()) {
                            None => {
                                proof {
                                    lemma_find_some_iff_contains(
                                        data.epics@,
                                        (issue.jira@.base_url, key@),
                                    );
                                }
                                String::new()
                            },
                            Some(epic) => match &epic.custom_fields.epic_name {
                                Some(n) => n.clone(),
                                None => String::new(),
                            },
                        },
                    };
                    let col3 = issue.confluence_wiki_url(false);
                    let col4 = issue.confluence_wiki_schedule(today);
                    out.append("| ");
                    out.append(col1.as_str());
                    out.append(" | ");
                    out.append(col2.as_str());
                    out.append(" | ");
                    out.append(col3.as_str());
                    out.append(" | ");
                    out.append(col4.as_str());
                    out.append(" |\n");
                    proof {
                        assert(out@ =~= row_start + spec_team_row(
                            data.epics@,
                            isv[j2 as int],
                            *today,
                        ));
                    }
                }
                j2 += 1;
            }
            proof {
                assert(isv.skip(issues@.len() as int) =~= Seq::<ReportIssueV>::empty());
                assert(out@ =~= sect_start + spec_team_section(data.epics@, isv, nv, *today));
            }
            p += 1;
        }
        proof {
            assert(snv.skip(sorted@.len() as int) =~= Seq::<Option<Seq<char>>>::empty());
            assert(out@ =~= spec_team_roadmaps(data.epics@, isv, *today));
        }
        out
    }

    /// The epic table: a header, then one row per indexed epic that a
    /// given issue references and that carries a display name.
    #[verifier::rlimit(60)]
    pub fn make_epics(&self, data: &ReportData, issues: &[&ReportIssue]) -> (r: String)
        ensures
            r@ == "\nh1. Эпики\n\n|| Эпик || Описание эпика ||\n"@ + spec_epics_rows(
                seq_view(issues@),
                data.epics@,
            ),
    {
        let ghost isv = seq_view(issues@);
        let mut out = String::new();
        out.append("\nh1. Эпики\n\n|| Эпик || Описание эпика ||\n");
        let ghost header = out@;
        proof {
            assert(data.epics@.take(0) =~= Seq::<ReportIssueV>::empty());
            assert(out@ =~= header + spec_epics_rows(isv, data.epics@.take(0)));
        }
        let mut e: usize = 0;
        while e < data.epics.issues.len()
            invariant
                e <= data.epics.issues@.len(),
                isv == seq_view(issues@),
                header == "\nh1. Эпики\n\n|| Эпик || Описание эпика ||\n"@,
                out@ == header + spec_epics_rows(isv, data.epics@.take(e as int)),
            decreases data.epics.issues@.len() - e,
        {
            proof {
                lemma_epics_rows_snoc(isv, data.epics@.take(e as int), data.epics@[e as int]);
                assert(data.epics@.take(e as int).push(data.epics@[e as int]) =~= data.epics@.take(
                    e as int + 1,
                ));
            }
            let epic = &data.epics.issues[e];
            proof {
                assert(epic@ == data.epics@[e as int]);
            }
            match &epic.custom_fields.epic_name {
                None => {},
                Some(name) => {
                    let mut referenced = false;
                    let mut i: usize = 0;
                    while i < issues.len()
                        invariant
                            i <= issues@.len(),
                            isv == seq_view(issues@),
                            referenced == exists|k: int|
                                0 <= k < i && spec_refs_epic(#[trigger] isv[k], epic@),
                        decreases issues@.len() - i,
                    {
                        let issue = issues[i];
                        let matches_ref = match &issue.custom_fields.epic_link {
                            Some(key) => crate::text::str_eq(
                                issue.jira.base_url.as_str(),
                                epic.jira.base_url.as_str(),
                            ) && crate::text::str_eq(key.as_str(), epic.issue.key.as_str()),
                            None => false,
                        };
                        proof {
                            assert(matches_ref == spec_refs_epic(isv[i as int], epic@));
                        }
                        if matches_ref {
                            referenced = true;
                        }
                        proof {
                            assert(referenced == exists|k: int|
                                0 <= k < i + 1 && spec_refs_epic(#[trigger] isv[k], epic@));
                        }
                        i += 1;
                    }
                    if referenced {
                        let ename = wiki_escape(name.as_str());
                        let reason = match &epic.custom_fields.reason {
                            Some(rn) => wiki_escape(rn.as_str()),
                            None => wiki_escape(""),
                        };
                        out.append("| [");
                        out.append(ename.as_str());
                        out.append("|");
                        out.append(epic.jira.base_url.as_str());
                        out.append("/browse/");
                        out.append(epic.issue.key.as_str());
                        out.append("] | ");
                        out.append(reason.as_str());
                        out.append(" |\n");
                        proof {
                            reveal_strlit("");
                        }
                    }
                },
            }
            proof {
                assert(out@ =~= header + spec_epics_rows(isv, data.epics@.take(e as int + 1)));
            }
            e += 1;
        }
        proof {
            assert(data.epics@.take(data.epics.issues@.len() as int) =~= data.epics@);
        }
        out
    }
}

} // verus!
