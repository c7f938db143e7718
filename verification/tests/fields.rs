use uprava::authentication::{Access, Secret};
use uprava::dates::{parse_date, Date};
use uprava::jira::{CustomField, FieldError, IssueCustomFields, IssueCustomFieldsConfig, JiraServer};
use uprava::jira_types::{FieldValue, IssueBean, IssueBeanFields};

fn server() -> JiraServer {
    JiraServer {
        base_url: "https://jira.example.com".to_string(),
        access: Access::JSessionID(Secret::Program("print-cookie".to_string())),
        custom_fields: IssueCustomFieldsConfig {
            reason: CustomField { name: "customfield_1".to_string() },
            epic_link: CustomField { name: "customfield_2".to_string() },
            epic_name: CustomField { name: "customfield_3".to_string() },
            planned_start: CustomField { name: "customfield_4".to_string() },
            planned_end: CustomField { name: "customfield_5".to_string() },
        },
        relations_map: vec![],
    }
}

fn bean(bag: Vec<(String, FieldValue)>) -> IssueBean {
    IssueBean {
        fields: IssueBeanFields {
            assignee_display_name: Some("A. Assignee".to_string()),
            assignee_active: Some(true),
            creator_display_name: Some("C. Creator".to_string()),
            created: "2024-01-01".to_string(),
            description: Some("a description".to_string()),
            issuelinks: None,
            issuetype_name: Some("Task".to_string()),
            labels: None,
            status_name: Some("Open".to_string()),
            summary: "the summary".to_string(),
            custom_fields: bag,
        },
        id: "10001".to_string(),
        key: "AB-1".to_string(),
    }
}

fn field(name: &str) -> CustomField {
    CustomField { name: name.to_string() }
}

#[test]
fn synthetic_names_read_structured_attributes() {
    let b = bean(vec![]);
    assert_eq!(field("summary").of_issue(&b), Ok(Some("the summary".to_string())));
    assert_eq!(field("description").of_issue(&b), Ok(Some("a description".to_string())));
    assert_eq!(field("key").of_issue(&b), Ok(Some("AB-1".to_string())));
    assert_eq!(field("id").of_issue(&b), Ok(Some("10001".to_string())));
    assert_eq!(field("issuetype.name").of_issue(&b), Ok(Some("Task".to_string())));
}

#[test]
fn bag_lookup_reads_text_values() {
    let b = bean(vec![("customfield_7".to_string(), FieldValue::Text("hello".to_string()))]);
    assert_eq!(field("customfield_7").of_issue(&b), Ok(Some("hello".to_string())));
}

#[test]
fn absent_and_null_fields_are_not_errors() {
    let b = bean(vec![("customfield_7".to_string(), FieldValue::Null)]);
    assert_eq!(field("customfield_7").of_issue(&b), Ok(None));
    assert_eq!(field("customfield_8").of_issue(&b), Ok(None));
}

#[test]
fn wrong_shape_is_a_type_mismatch() {
    let b = bean(vec![("customfield_7".to_string(), FieldValue::Other)]);
    assert_eq!(field("customfield_7").of_issue(&b), Err(FieldError::TypeMismatch));
}

#[test]
fn bag_lookup_takes_the_first_entry() {
    let b = bean(vec![
        ("customfield_7".to_string(), FieldValue::Text("first".to_string())),
        ("customfield_7".to_string(), FieldValue::Text("second".to_string())),
    ]);
    assert_eq!(field("customfield_7").of_issue(&b), Ok(Some("first".to_string())));
}

#[test]
fn date_fields_parse_bare_dates() {
    let b = bean(vec![("customfield_4".to_string(), FieldValue::Text("2024-03-15".to_string()))]);
    assert_eq!(
        field("customfield_4").date_of_issue(&b),
        Ok(Some(Date { year: 2024, month: 3, day: 15 }))
    );
}

#[test]
fn absent_date_fields_are_none() {
    let b = bean(vec![]);
    assert_eq!(field("customfield_4").date_of_issue(&b), Ok(None));
}

#[test]
fn malformed_dates_are_errors() {
    let b = bean(vec![("customfield_4".to_string(), FieldValue::Text("soon".to_string()))]);
    assert_eq!(field("customfield_4").date_of_issue(&b), Err(FieldError::InvalidDate));
}

#[test]
fn parse_date_accepts_real_calendar_days() {
    assert_eq!(parse_date("2024-02-29"), Some(Date { year: 2024, month: 2, day: 29 }));
    assert_eq!(parse_date("2000-02-29"), Some(Date { year: 2000, month: 2, day: 29 }));
    assert_eq!(parse_date("0000-01-01"), Some(Date { year: 0, month: 1, day: 1 }));
    assert_eq!(parse_date("9999-12-31"), Some(Date { year: 9999, month: 12, day: 31 }));
}

#[test]
fn parse_date_rejects_impossible_days() {
    assert_eq!(parse_date("2023-02-29"), None);
    assert_eq!(parse_date("1900-02-29"), None);
    assert_eq!(parse_date("2024-13-01"), None);
    assert_eq!(parse_date("2024-04-31"), None);
    assert_eq!(parse_date("2024-00-10"), None);
    assert_eq!(parse_date("2024-01-00"), None);
}

#[test]
fn parse_date_rejects_other_shapes() {
    assert_eq!(parse_date(""), None);
    assert_eq!(parse_date("2024-1-1"), None);
    assert_eq!(parse_date("2024/01/01"), None);
    assert_eq!(parse_date("2024-01-01T00:00:00Z"), None);
}

#[test]
fn custom_fields_extraction_collects_all_five() {
    let bag = vec![
        ("customfield_1".to_string(), FieldValue::Text("because".to_string())),
        ("customfield_2".to_string(), FieldValue::Text("EPIC-9".to_string())),
        ("customfield_3".to_string(), FieldValue::Text("The Epic".to_string())),
        ("customfield_4".to_string(), FieldValue::Text("2024-01-02".to_string())),
        ("customfield_5".to_string(), FieldValue::Text("2024-02-03".to_string())),
    ];
    let b = bean(bag);
    let cf = IssueCustomFields::of_issue(&server(), &b).unwrap();
    assert_eq!(cf.reason, Some("because".to_string()));
    assert_eq!(cf.epic_link, Some("EPIC-9".to_string()));
    assert_eq!(cf.epic_name, Some("The Epic".to_string()));
    assert_eq!(cf.planned_start, Some(Date { year: 2024, month: 1, day: 2 }));
    assert_eq!(cf.planned_end, Some(Date { year: 2024, month: 2, day: 3 }));
}

#[test]
fn extraction_fails_on_a_misshapen_configured_field() {
    let bag = vec![("customfield_1".to_string(), FieldValue::Other)];
    let b = bean(bag);
    let r = IssueCustomFields::of_issue(&server(), &b);
    assert!(matches!(r, Err(FieldError::TypeMismatch)));
}

#[test]
fn program_secrets_are_not_resolved_here() {
    let s = Secret::Program("some-command".to_string());
    assert_eq!(s.get(), None);
    let lit = Secret::String("value".to_string());
    assert_eq!(lit.get(), Some("value".to_string()));
}
