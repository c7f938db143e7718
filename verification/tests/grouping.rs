use uprava::authentication::{Access, Secret};
use uprava::jira::{CustomField, IssueCustomFieldsConfig, JiraServer};
use uprava::jira_types::{FieldValue, IssueBean, IssueBeanFields};
use uprava::report::{ReportIssue, ReportIssueType};
use uprava::report_data::{IssuesList, RelationSet, ReportData};
use uprava::report_storypoints::GroupBy;

fn server(url: &str) -> JiraServer {
    JiraServer {
        base_url: url.to_string(),
        access: Access::Token(Secret::String("token".to_string())),
        custom_fields: IssueCustomFieldsConfig {
            reason: CustomField { name: "customfield_1".to_string() },
            epic_link: CustomField { name: "customfield_2".to_string() },
            epic_name: CustomField { name: "customfield_3".to_string() },
            planned_start: CustomField { name: "customfield_4".to_string() },
            planned_end: CustomField { name: "customfield_5".to_string() },
        },
        relations_map: vec![],
    }
}

fn bean(key: &str, bag: Vec<(String, FieldValue)>, labels: Option<Vec<String>>) -> IssueBean {
    IssueBean {
        fields: IssueBeanFields {
            assignee_display_name: Some("Assignee Name".to_string()),
            assignee_active: Some(true),
            creator_display_name: None,
            created: "2024-01-01".to_string(),
            description: None,
            issuelinks: None,
            issuetype_name: None,
            labels,
            status_name: None,
            summary: "s".to_string(),
            custom_fields: bag,
        },
        id: "1".to_string(),
        key: key.to_string(),
    }
}

fn empty_data() -> ReportData {
    ReportData { issues: IssuesList::new(), epics: IssuesList::new(), relations: RelationSet::new() }
}

#[test]
fn column_titles_match_the_axes() {
    assert_eq!(GroupBy::Reporter.get_column_title(), "Автор");
    assert_eq!(GroupBy::Assignee.get_column_title(), "Исполнитель");
    assert_eq!(GroupBy::Epic.get_column_title(), "Эпик");
    assert_eq!(GroupBy::Label.get_column_title(), "Метка");
}

#[test]
fn reporter_falls_back_when_unset() {
    let j = server("https://jira.example.com");
    let i = ReportIssue::of_issuebean(&j, &bean("AB-1", vec![], None), ReportIssueType::ReportMember)
        .unwrap();
    let titles = GroupBy::Reporter.get_titles(&i, &empty_data());
    assert_eq!(titles, vec!["не определен".to_string()]);
}

#[test]
fn assignee_uses_the_display_name() {
    let j = server("https://jira.example.com");
    let i = ReportIssue::of_issuebean(&j, &bean("AB-1", vec![], None), ReportIssueType::ReportMember)
        .unwrap();
    let titles = GroupBy::Assignee.get_titles(&i, &empty_data());
    assert_eq!(titles, vec!["Assignee Name".to_string()]);
}

#[test]
fn labels_yield_one_title_each() {
    let j = server("https://jira.example.com");
    let labels = Some(vec!["red".to_string(), "blue".to_string()]);
    let i = ReportIssue::of_issuebean(&j, &bean("AB-1", vec![], labels), ReportIssueType::ReportMember)
        .unwrap();
    let titles = GroupBy::Label.get_titles(&i, &empty_data());
    assert_eq!(titles, vec!["red".to_string(), "blue".to_string()]);
}

#[test]
fn epic_axis_renders_the_epic_link() {
    let j = server("https://jira.example.com");
    let member_bag = vec![("customfield_2".to_string(), FieldValue::Text("EPIC-9".to_string()))];
    let member =
        ReportIssue::of_issuebean(&j, &bean("AB-1", member_bag, None), ReportIssueType::ReportMember)
            .unwrap();
    let epic_bag = vec![("customfield_3".to_string(), FieldValue::Text("The Epic".to_string()))];
    let epic = ReportIssue::of_issuebean(&j, &bean("EPIC-9", epic_bag, None), ReportIssueType::Epic)
        .unwrap();
    let mut data = empty_data();
    data.epics.insert(&epic);
    let titles = GroupBy::Epic.get_titles(&member, &data);
    assert_eq!(titles, vec!["[The Epic|https://jira.example.com/browse/EPIC-9]".to_string()]);
}

#[test]
fn epic_axis_is_empty_without_a_known_epic() {
    let j = server("https://jira.example.com");
    let member_bag = vec![("customfield_2".to_string(), FieldValue::Text("EPIC-9".to_string()))];
    let member =
        ReportIssue::of_issuebean(&j, &bean("AB-1", member_bag, None), ReportIssueType::ReportMember)
            .unwrap();
    let titles = GroupBy::Epic.get_titles(&member, &empty_data());
    assert_eq!(titles, vec![String::new()]);
}

#[test]
fn issue_url_joins_the_browse_path() {
    let j = server("https://jira.example.com");
    let i = ReportIssue::of_issuebean(&j, &bean("AB-1", vec![], None), ReportIssueType::ReportMember)
        .unwrap();
    assert_eq!(i.url(), "https://jira.example.com/browse/AB-1");
}
