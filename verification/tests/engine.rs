use uprava::authentication::{Access, Secret};
use uprava::jira::{CustomField, IssueCustomFieldsConfig, JiraServer};
use uprava::jira_types::{FieldValue, IssueBean, IssueBeanFields, RawLink};
use uprava::report::{
    ForeignRelation, ForeignRelationSubject, RelationKind, ReportIssue, ReportIssueType,
};
use uprava::report_data::{Assembly, IssueID, Relation, RelationSet};

fn server(url: &str) -> JiraServer {
    JiraServer {
        base_url: url.to_string(),
        access: Access::Token(Secret::String("token".to_string())),
        custom_fields: IssueCustomFieldsConfig {
            reason: CustomField { name: "customfield_1".to_string() },
            epic_link: CustomField { name: "customfield_2".to_string() },
            epic_name: CustomField { name: "customfield_3".to_string() },
            planned_start: CustomField { name: "customfield_4".to_string() },
            planned_end: CustomField { name: "customfield_5".to_string() },
        },
        relations_map: vec![],
    }
}

fn bean(key: &str, links: Vec<RawLink>) -> IssueBean {
    IssueBean {
        fields: IssueBeanFields {
            assignee_display_name: None,
            assignee_active: None,
            creator_display_name: None,
            created: "2024-01-01".to_string(),
            description: None,
            issuelinks: Some(links),
            issuetype_name: None,
            labels: None,
            status_name: None,
            summary: format!("Summary of {}", key),
            custom_fields: Vec::<(String, FieldValue)>::new(),
        },
        id: "1".to_string(),
        key: key.to_string(),
    }
}

fn link_to(other: &str, term: &str) -> RawLink {
    RawLink {
        inward_key: Some(other.to_string()),
        outward_key: None,
        type_inward: Some(term.to_string()),
    }
}

fn issue(jira: &JiraServer, key: &str, links: Vec<RawLink>, t: ReportIssueType) -> ReportIssue {
    ReportIssue::of_issuebean(jira, &bean(key, links), t).unwrap()
}

#[test]
fn end_to_end_seed_with_block_link() {
    let j = server("https://jira.example.com");
    let i1 = issue(&j, "ISSUE-1", vec![link_to("ISSUE-2", "blocks")], ReportIssueType::ReportMember);
    let i2 = issue(&j, "ISSUE-2", vec![], ReportIssueType::ReportMember);
    let mut a = Assembly::new(vec![], &[i1, i2], 1);
    let reqs = a.advance();
    assert!(reqs.is_empty());
    assert!(!a.is_done());
    let reqs2 = a.advance();
    assert!(reqs2.is_empty());
    assert!(a.is_done());
    let data = a.finish();
    assert_eq!(data.relations.relations.len(), 1);
    let rel = &data.relations.relations[0];
    assert_eq!(rel.from.issue, "ISSUE-1");
    assert_eq!(rel.to.issue, "ISSUE-2");
    assert!(matches!(rel.kind, RelationKind::Block));
    assert_eq!(data.issues.issues.len(), 2);
    assert!(data.issues.get(&j, "ISSUE-1").is_some());
    assert!(data.issues.get(&j, "ISSUE-2").is_some());
    assert_eq!(data.epics.issues.len(), 0);
}

#[test]
fn depth_zero_means_no_expansion() {
    let j = server("https://jira.example.com");
    let i1 = issue(&j, "ISSUE-1", vec![link_to("ISSUE-9", "blocks")], ReportIssueType::ReportMember);
    let mut a = Assembly::new(vec![], &[i1], 0);
    let reqs = a.advance();
    assert!(reqs.is_empty());
    assert!(a.is_done());
    let data = a.finish();
    assert_eq!(data.relations.relations.len(), 0);
    assert_eq!(data.issues.issues.len(), 1);
    assert!(data.issues.get(&j, "ISSUE-1").is_some());
    assert!(data.issues.get(&j, "ISSUE-9").is_none());
}

#[test]
fn missing_link_target_is_fetched_once_and_tagged() {
    let j = server("https://jira.example.com");
    let i1 = issue(
        &j,
        "ISSUE-1",
        vec![link_to("ISSUE-3", "blocks"), link_to("ISSUE-3", "depends on")],
        ReportIssueType::ReportMember,
    );
    let mut a = Assembly::new(vec![], &[i1], 1);
    let reqs = a.advance();
    assert_eq!(reqs.len(), 1);
    assert_eq!(reqs[0].jira.base_url, "https://jira.example.com");
    assert_eq!(reqs[0].keys, vec!["ISSUE-3".to_string()]);
    let fetched = issue(&j, "ISSUE-3", vec![], ReportIssueType::ExternalDependency);
    a.supply(&vec![fetched]);
    let reqs2 = a.advance();
    assert!(reqs2.is_empty());
    assert!(a.is_done());
    let data = a.finish();
    assert_eq!(data.issues.issues.len(), 2);
    let got = data.issues.get(&j, "ISSUE-3").unwrap();
    assert!(matches!(got.entity_type, ReportIssueType::ExternalDependency));
    assert_eq!(data.relations.relations.len(), 2);
}

#[test]
fn unknown_link_terms_are_dropped() {
    let j = server("https://jira.example.com");
    let i1 = issue(
        &j,
        "ISSUE-1",
        vec![link_to("ISSUE-3", "duplicates")],
        ReportIssueType::ReportMember,
    );
    let mut a = Assembly::new(vec![], &[i1], 1);
    let reqs = a.advance();
    assert!(reqs.is_empty());
    let reqs2 = a.advance();
    assert!(reqs2.is_empty());
    let data = a.finish();
    assert_eq!(data.relations.relations.len(), 0);
    assert_eq!(data.issues.issues.len(), 1);
}

#[test]
fn vocabulary_remap_applies_before_the_table() {
    let mut j = server("https://jira.example.com");
    j.relations_map = vec![("is required by".to_string(), "blocks".to_string())];
    let i1 = issue(
        &j,
        "ISSUE-1",
        vec![link_to("ISSUE-2", "is required by")],
        ReportIssueType::ReportMember,
    );
    let i2 = issue(&j, "ISSUE-2", vec![], ReportIssueType::ReportMember);
    let mut a = Assembly::new(vec![], &[i1, i2], 1);
    let _ = a.advance();
    let _ = a.advance();
    let data = a.finish();
    assert_eq!(data.relations.relations.len(), 1);
    assert!(matches!(data.relations.relations[0].kind, RelationKind::Block));
}

#[test]
fn foreign_relation_injects_a_block() {
    let jx = server("https://one.example.com");
    let jy = server("https://two.example.com");
    let x = issue(&jx, "X-1", vec![], ReportIssueType::ReportMember);
    let foreign = vec![ForeignRelation {
        from: ForeignRelationSubject {
            jira: jx.clone(),
            issue: "X-1".to_string(),
            kind: "is blocked by".to_string(),
        },
        to: ForeignRelationSubject {
            jira: jy.clone(),
            issue: "Y-1".to_string(),
            kind: "blocks".to_string(),
        },
    }];
    let mut a = Assembly::new(foreign, &[x], 1);
    let reqs = a.advance();
    assert_eq!(reqs.len(), 1);
    assert_eq!(reqs[0].jira.base_url, "https://two.example.com");
    assert_eq!(reqs[0].keys, vec!["Y-1".to_string()]);
    let y = issue(&jy, "Y-1", vec![], ReportIssueType::ExternalDependency);
    a.supply(&vec![y]);
    let _ = a.advance();
    let data = a.finish();
    assert_eq!(data.relations.relations.len(), 1);
    let rel = &data.relations.relations[0];
    assert_eq!(rel.from.jira, "https://one.example.com");
    assert_eq!(rel.from.issue, "X-1");
    assert_eq!(rel.to.jira, "https://two.example.com");
    assert_eq!(rel.to.issue, "Y-1");
    assert!(matches!(rel.kind, RelationKind::Block));
}

#[test]
fn relation_set_deduplicates_triples() {
    let mk = || Relation {
        from: IssueID { jira: "https://j.example.com".to_string(), issue: "A".to_string() },
        to: IssueID { jira: "https://j.example.com".to_string(), issue: "B".to_string() },
        kind: RelationKind::Dependance,
    };
    let mut set = RelationSet::new();
    set.insert(mk());
    set.insert(mk());
    assert_eq!(set.len(), 1);
    let other = Relation {
        from: IssueID { jira: "https://j.example.com".to_string(), issue: "B".to_string() },
        to: IssueID { jira: "https://j.example.com".to_string(), issue: "A".to_string() },
        kind: RelationKind::Dependance,
    };
    set.insert(other);
    assert_eq!(set.len(), 2);
}

#[test]
fn duplicate_links_collapse_to_one_relation() {
    let j = server("https://jira.example.com");
    let i1 = issue(
        &j,
        "ISSUE-1",
        vec![link_to("ISSUE-2", "blocks"), link_to("ISSUE-2", "blocks")],
        ReportIssueType::ReportMember,
    );
    let i2 = issue(&j, "ISSUE-2", vec![], ReportIssueType::ReportMember);
    let mut a = Assembly::new(vec![], &[i1, i2], 1);
    let _ = a.advance();
    let _ = a.advance();
    let data = a.finish();
    assert_eq!(data.relations.relations.len(), 1);
}

#[test]
fn outward_links_are_read_from_the_other_side() {
    // an outward link carries the inward wording, so the pair is swapped:
    // "blocks" on an outward link means the other issue blocks this one
    let j = server("https://jira.example.com");
    let outward = RawLink {
        inward_key: None,
        outward_key: Some("ISSUE-2".to_string()),
        type_inward: Some("blocks".to_string()),
    };
    let i1 = issue(&j, "ISSUE-1", vec![outward], ReportIssueType::ReportMember);
    let i2 = issue(&j, "ISSUE-2", vec![], ReportIssueType::ReportMember);
    let mut a = Assembly::new(vec![], &[i1, i2], 1);
    let _ = a.advance();
    let _ = a.advance();
    let data = a.finish();
    assert_eq!(data.relations.relations.len(), 1);
    let rel = &data.relations.relations[0];
    assert_eq!(rel.from.issue, "ISSUE-2");
    assert_eq!(rel.to.issue, "ISSUE-1");
    assert!(matches!(rel.kind, RelationKind::Block));
}
