use uprava::authentication::{Access, Secret};
use uprava::confluence_content_get::ContentPrinter;
use uprava::jira::{CustomField, IssueCustomFieldsConfig, IssuePrinter, JiraServer};
use uprava::jira_types::{FieldValue, IssueBean, IssueBeanFields};
use uprava::printer::SerdePrinter;
use uprava::report::{ReportIssue, ReportIssueType};
use uprava::report_confluence_roadmap::{
    default_dependencies_deepness, default_show_epics, default_show_team_roadmaps,
    ConfluenceRoadmap,
};
use uprava::report_roadmap::Roadmap;
use uprava::report_worklog::{Member, MemberResult, Worklog};
use std::str::FromStr;

fn server(url: &str) -> JiraServer {
    JiraServer {
        base_url: url.to_string(),
        access: Access::Token(Secret::String("token".to_string())),
        custom_fields: IssueCustomFieldsConfig {
            reason: CustomField { name: "customfield_1".to_string() },
            epic_link: CustomField { name: "customfield_2".to_string() },
            epic_name: CustomField { name: "customfield_3".to_string() },
            planned_start: CustomField { name: "customfield_4".to_string() },
            planned_end: CustomField { name: "customfield_5".to_string() },
        },
        relations_map: vec![],
    }
}

fn record(
    jira: &JiraServer,
    summary: &str,
    reason: Option<&str>,
    assignee: Option<(&str, bool)>,
    status: Option<&str>,
) -> ReportIssue {
    let mut bag = Vec::<(String, FieldValue)>::new();
    if let Some(r) = reason {
        bag.push(("customfield_1".to_string(), FieldValue::Text(r.to_string())));
    }
    let bean = IssueBean {
        fields: IssueBeanFields {
            assignee_display_name: assignee.map(|(n, _)| n.to_string()),
            assignee_active: assignee.map(|(_, a)| a),
            creator_display_name: None,
            created: "2024-01-01".to_string(),
            description: None,
            issuelinks: None,
            issuetype_name: None,
            labels: None,
            status_name: status.map(|s| s.to_string()),
            summary: summary.to_string(),
            custom_fields: bag,
        },
        id: "1".to_string(),
        key: "AB-1".to_string(),
    };
    ReportIssue::of_issuebean(jira, &bean, ReportIssueType::ReportMember).unwrap()
}

#[test]
fn task_cell_shows_summary_reason_and_assignee() {
    let j = server("https://jira.example.com");
    let i = record(&j, "Do the thing", Some("because"), Some(("Ann", true)), None);
    let cell = Roadmap.get_task(&i);
    assert_eq!(cell, " *Do the thing*\\\\ \\\\because\\\\ \\\\ Исполнитель Ann");
}

#[test]
fn task_cell_marks_inactive_assignees() {
    let j = server("https://jira.example.com");
    let i = record(&j, "Task", None, Some(("Bob", false)), None);
    let cell = Roadmap.get_task(&i);
    assert_eq!(cell, " *Task*\\\\ \\\\ Исполнитель Bob *не активен!*");
}

#[test]
fn wiki_roadmap_task_cell_matches_plain_roadmap() {
    let j = server("https://jira.example.com");
    let i = record(&j, "Same cell", None, None, None);
    let roadmap = ConfluenceRoadmap {
        query_set: uprava::report::QuerySet(vec![]),
        confluence: uprava::confluence::ConfluenceServer {
            base_url: "https://wiki.example.com".to_string(),
            access: Access::Token(Secret::String("token".to_string())),
        },
        space: "SP".to_string(),
        title: "Page".to_string(),
        show_epics: default_show_epics(),
        show_team_roadmaps: default_show_team_roadmaps(),
        dependencies_deepness: default_dependencies_deepness(),
        foreign_relations: vec![],
    };
    assert_eq!(roadmap.get_task(&i), Roadmap.get_task(&i));
    assert_eq!(roadmap.dependencies_deepness, 1);
}

#[test]
fn issue_link_cell_names_key_url_and_status() {
    let j = server("https://jira.example.com");
    let i = record(&j, "s", None, None, Some("In Progress"));
    let cell = Roadmap.get_issue_link(&i);
    assert_eq!(cell, "[AB-1|https://jira.example.com/browse/AB-1] \\\\ In Progress");
}

#[test]
fn issue_link_cell_with_no_status_is_empty_after_the_break() {
    let j = server("https://jira.example.com");
    let i = record(&j, "s", None, None, None);
    let cell = Roadmap.get_issue_link(&i);
    assert_eq!(cell, "[AB-1|https://jira.example.com/browse/AB-1] \\\\ ");
}

#[test]
fn printers_parse_their_names() {
    assert_eq!(SerdePrinter::from_str("json"), Ok(SerdePrinter::Json));
    assert_eq!(SerdePrinter::from_str("yaml"), Ok(SerdePrinter::Yaml));
    assert!(SerdePrinter::from_str("xml").is_err());
    assert_eq!(IssuePrinter::from_str("email"), Ok(IssuePrinter::Email));
    assert_eq!(IssuePrinter::from_str("json"), Ok(IssuePrinter::Serde(SerdePrinter::Json)));
    assert_eq!(ContentPrinter::from_str("email"), Ok(ContentPrinter::Email));
    assert_eq!(ContentPrinter::from_str("yaml"), Ok(ContentPrinter::Serde(SerdePrinter::Yaml)));
    assert!(ContentPrinter::from_str("pdf").is_err());
}

#[test]
fn worklog_task_cell_truncates_long_titles() {
    let j = server("https://jira.example.com");
    let i = record(&j, "A very long summary indeed", None, None, None);
    let member = Member {
        name: "Team".to_string(),
        query_set: uprava::report::QuerySet(vec![]),
        description: None,
    };
    let result = MemberResult { member, issues: vec![] };
    let report = Worklog {
        confluence: uprava::confluence::ConfluenceServer {
            base_url: "https://wiki.example.com".to_string(),
            access: Access::Token(Secret::String("token".to_string())),
        },
        space: "SP".to_string(),
        title: "Page".to_string(),
        description: None,
        show_author: true,
        show_assignee: false,
        extra_columns: vec![],
        title_length_limit: Some(6),
        members: vec![],
    };
    let cell = result.get_task(&i, &report);
    assert_eq!(cell, " *A very …*\\\\ \\\\Автор: не определен");
}

#[test]
fn worklog_task_cell_keeps_short_titles() {
    let j = server("https://jira.example.com");
    let i = record(&j, "Short", None, Some(("Ann", true)), None);
    let member = Member {
        name: "Team".to_string(),
        query_set: uprava::report::QuerySet(vec![]),
        description: None,
    };
    let result = MemberResult { member, issues: vec![] };
    let report = Worklog {
        confluence: uprava::confluence::ConfluenceServer {
            base_url: "https://wiki.example.com".to_string(),
            access: Access::Token(Secret::String("token".to_string())),
        },
        space: "SP".to_string(),
        title: "Page".to_string(),
        description: None,
        show_author: false,
        show_assignee: true,
        extra_columns: vec![],
        title_length_limit: Some(100),
        members: vec![],
    };
    let cell = result.get_task(&i, &report);
    assert_eq!(cell, " *Short*\\\\ \\\\Исполнитель: Ann");
}
