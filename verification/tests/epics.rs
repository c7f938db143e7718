use uprava::authentication::{Access, Secret};
use uprava::jira::{CustomField, IssueCustomFieldsConfig, JiraServer};
use uprava::jira_types::{FieldValue, IssueBean, IssueBeanFields};
use uprava::report::{ReportIssue, ReportIssueType};
use uprava::report_data::{epics_plan, group_by_instance, Assembly, IssuesList};

fn server(url: &str) -> JiraServer {
    JiraServer {
        base_url: url.to_string(),
        access: Access::Token(Secret::String("token".to_string())),
        custom_fields: IssueCustomFieldsConfig {
            reason: CustomField { name: "customfield_1".to_string() },
            epic_link: CustomField { name: "customfield_2".to_string() },
            epic_name: CustomField { name: "customfield_3".to_string() },
            planned_start: CustomField { name: "customfield_4".to_string() },
            planned_end: CustomField { name: "customfield_5".to_string() },
        },
        relations_map: vec![],
    }
}

fn bean_with_epic(key: &str, epic: Option<&str>) -> IssueBean {
    let mut bag = Vec::<(String, FieldValue)>::new();
    if let Some(e) = epic {
        bag.push(("customfield_2".to_string(), FieldValue::Text(e.to_string())));
    }
    IssueBean {
        fields: IssueBeanFields {
            assignee_display_name: None,
            assignee_active: None,
            creator_display_name: None,
            created: "2024-01-01".to_string(),
            description: None,
            issuelinks: None,
            issuetype_name: None,
            labels: None,
            status_name: None,
            summary: format!("Summary of {}", key),
            custom_fields: bag,
        },
        id: "1".to_string(),
        key: key.to_string(),
    }
}

fn issue(jira: &JiraServer, key: &str, epic: Option<&str>, t: ReportIssueType) -> ReportIssue {
    ReportIssue::of_issuebean(jira, &bean_with_epic(key, epic), t).unwrap()
}

#[test]
fn ten_references_one_fetch() {
    let j = server("https://jira.example.com");
    let mut seed = Vec::new();
    for k in 0..10 {
        seed.push(issue(&j, &format!("ISSUE-{}", k), Some("EPIC-9"), ReportIssueType::ReportMember));
    }
    let store = IssuesList::of_slice(&seed);
    let (epics, to_fetch) = epics_plan(&store);
    assert_eq!(epics.issues.len(), 0);
    assert_eq!(to_fetch.len(), 1);
    assert_eq!(to_fetch[0].1, "EPIC-9");
    let reqs = group_by_instance(&to_fetch);
    assert_eq!(reqs.len(), 1);
    assert_eq!(reqs[0].keys, vec!["EPIC-9".to_string()]);
}

#[test]
fn epic_already_in_store_is_reused_not_fetched() {
    let j = server("https://jira.example.com");
    let member = issue(&j, "ISSUE-1", Some("EPIC-9"), ReportIssueType::ReportMember);
    let epic = issue(&j, "EPIC-9", None, ReportIssueType::ReportMember);
    let store = IssuesList::of_slice(&[member, epic]);
    let (epics, to_fetch) = epics_plan(&store);
    assert_eq!(to_fetch.len(), 0);
    assert_eq!(epics.issues.len(), 1);
    assert_eq!(epics.issues[0].issue.key, "EPIC-9");
}

#[test]
fn missing_epic_is_fetched_and_lands_in_both_stores() {
    let j = server("https://jira.example.com");
    let member = issue(&j, "ISSUE-1", Some("EPIC-9"), ReportIssueType::ReportMember);
    let mut a = Assembly::new(vec![], &[member], 0);
    let reqs = a.advance();
    assert_eq!(reqs.len(), 1);
    assert_eq!(reqs[0].jira.base_url, "https://jira.example.com");
    assert_eq!(reqs[0].keys, vec!["EPIC-9".to_string()]);
    assert!(!a.is_done());
    let epic = issue(&j, "EPIC-9", None, ReportIssueType::Epic);
    a.supply(&vec![epic]);
    assert!(a.is_done());
    let data = a.finish();
    let indexed = data.epics.get(&j, "EPIC-9").unwrap();
    assert!(matches!(indexed.entity_type, ReportIssueType::Epic));
    assert!(data.issues.get(&j, "EPIC-9").is_some());
    assert_eq!(data.issues.issues.len(), 2);
}

#[test]
fn epics_on_different_instances_fetch_separately() {
    let j1 = server("https://one.example.com");
    let j2 = server("https://two.example.com");
    let m1 = issue(&j1, "A-1", Some("EPIC-1"), ReportIssueType::ReportMember);
    let m2 = issue(&j2, "B-1", Some("EPIC-1"), ReportIssueType::ReportMember);
    let store = IssuesList::of_slice(&[m1, m2]);
    let (_, to_fetch) = epics_plan(&store);
    assert_eq!(to_fetch.len(), 2);
    let reqs = group_by_instance(&to_fetch);
    assert_eq!(reqs.len(), 2);
    assert_eq!(reqs[0].keys, vec!["EPIC-1".to_string()]);
    assert_eq!(reqs[1].keys, vec!["EPIC-1".to_string()]);
    assert_ne!(reqs[0].jira.base_url, reqs[1].jira.base_url);
}
