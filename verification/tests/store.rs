use uprava::authentication::{Access, Secret};
use uprava::jira::{CustomField, IssueCustomFieldsConfig, JiraServer};
use uprava::jira_types::{FieldValue, IssueBean, IssueBeanFields};
use uprava::report::{ReportIssue, ReportIssueType};
use uprava::report_data::{IssueID, IssuesList};

fn server(url: &str) -> JiraServer {
    JiraServer {
        base_url: url.to_string(),
        access: Access::Token(Secret::String("token".to_string())),
        custom_fields: IssueCustomFieldsConfig {
            reason: CustomField { name: "customfield_1".to_string() },
            epic_link: CustomField { name: "customfield_2".to_string() },
            epic_name: CustomField { name: "customfield_3".to_string() },
            planned_start: CustomField { name: "customfield_4".to_string() },
            planned_end: CustomField { name: "customfield_5".to_string() },
        },
        relations_map: vec![],
    }
}

fn bean(key: &str, summary: &str) -> IssueBean {
    IssueBean {
        fields: IssueBeanFields {
            assignee_display_name: None,
            assignee_active: None,
            creator_display_name: None,
            created: "2024-01-01".to_string(),
            description: None,
            issuelinks: None,
            issuetype_name: None,
            labels: None,
            status_name: None,
            summary: summary.to_string(),
            custom_fields: Vec::<(String, FieldValue)>::new(),
        },
        id: "1".to_string(),
        key: key.to_string(),
    }
}

fn issue(jira: &JiraServer, key: &str, summary: &str) -> ReportIssue {
    ReportIssue::of_issuebean(jira, &bean(key, summary), ReportIssueType::ReportMember).unwrap()
}

#[test]
fn insert_is_first_write_wins() {
    let j = server("https://jira.example.com");
    let r1 = issue(&j, "AB-1", "first content");
    let r2 = issue(&j, "AB-1", "second content");
    let mut store = IssuesList::new();
    store.insert(&r1);
    store.insert(&r2);
    assert_eq!(store.issues.len(), 1);
    let got = store.get(&j, "AB-1").unwrap();
    assert_eq!(got.issue.fields.summary, "first content");
}

#[test]
fn get_missing_is_none() {
    let j = server("https://jira.example.com");
    let store = IssuesList::new();
    assert!(store.get(&j, "AB-1").is_none());
}

#[test]
fn cross_instance_records_are_not_merged() {
    let j1 = server("https://one.example.com");
    let j2 = server("https://two.example.com");
    let r1 = issue(&j1, "AB-1", "on one");
    let r2 = issue(&j2, "AB-1", "on two");
    let mut store = IssuesList::new();
    store.insert(&r1);
    store.insert(&r2);
    assert_eq!(store.issues.len(), 2);
    assert_eq!(store.get(&j1, "AB-1").unwrap().issue.fields.summary, "on one");
    assert_eq!(store.get(&j2, "AB-1").unwrap().issue.fields.summary, "on two");
}

#[test]
fn of_slice_keeps_the_first_of_duplicates() {
    let j = server("https://jira.example.com");
    let r1 = issue(&j, "AB-1", "first");
    let r2 = issue(&j, "AB-1", "second");
    let r3 = issue(&j, "AB-2", "other");
    let store = IssuesList::of_slice(&[r1, r2, r3]);
    assert_eq!(store.issues.len(), 2);
    assert_eq!(store.get(&j, "AB-1").unwrap().issue.fields.summary, "first");
    assert_eq!(store.get(&j, "AB-2").unwrap().issue.fields.summary, "other");
}

#[test]
fn all_returns_the_records_in_insertion_order() {
    let j = server("https://jira.example.com");
    let mut store = IssuesList::new();
    store.insert(&issue(&j, "AB-2", "b"));
    store.insert(&issue(&j, "AB-1", "a"));
    let all = store.all();
    assert_eq!(all.len(), 2);
    assert_eq!(all[0].issue.key, "AB-2");
    assert_eq!(all[1].issue.key, "AB-1");
}

#[test]
fn identity_rendering_collapses_separators() {
    let id = IssueID {
        jira: "https://j.example.com".to_string(),
        issue: "AB-1".to_string(),
    };
    assert_eq!(id.as_string(), "https___j_example_com_AB_1");
}

#[test]
fn identity_of_issue_uses_instance_and_key() {
    let j = server("https://jira.example.com");
    let r = issue(&j, "AB-7", "x");
    let id = IssueID::of_issue(&r);
    assert_eq!(id.jira, "https://jira.example.com");
    assert_eq!(id.issue, "AB-7");
}
