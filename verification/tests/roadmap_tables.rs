use uprava::authentication::{Access, Secret};
use uprava::confluence::ConfluenceServer;
use uprava::dates::Date;
use uprava::jira::{CustomField, IssueCustomFieldsConfig, JiraServer};
use uprava::jira_types::{FieldValue, IssueBean, IssueBeanFields};
use uprava::report::{QuerySet, ReportIssue, ReportIssueType};
use uprava::report_confluence_roadmap::ConfluenceRoadmap;
use uprava::report_data::{IssuesList, RelationSet, ReportData};

fn server(url: &str) -> JiraServer {
    JiraServer {
        base_url: url.to_string(),
        access: Access::Token(Secret::String("token".to_string())),
        custom_fields: IssueCustomFieldsConfig {
            reason: CustomField { name: "customfield_1".to_string() },
            epic_link: CustomField { name: "customfield_2".to_string() },
            epic_name: CustomField { name: "customfield_3".to_string() },
            planned_start: CustomField { name: "customfield_4".to_string() },
            planned_end: CustomField { name: "customfield_5".to_string() },
        },
        relations_map: vec![],
    }
}

fn record(jira: &JiraServer, key: &str, summary: &str, bag: Vec<(String, FieldValue)>, t: ReportIssueType) -> ReportIssue {
    let bean = IssueBean {
        fields: IssueBeanFields {
            assignee_display_name: None,
            assignee_active: None,
            creator_display_name: None,
            created: "2024-01-01".to_string(),
            description: None,
            issuelinks: None,
            issuetype_name: None,
            labels: None,
            status_name: Some("Open".to_string()),
            summary: summary.to_string(),
            custom_fields: bag,
        },
        id: "1".to_string(),
        key: key.to_string(),
    };
    ReportIssue::of_issuebean(jira, &bean, t).unwrap()
}

fn text(name: &str, value: &str) -> (String, FieldValue) {
    (name.to_string(), FieldValue::Text(value.to_string()))
}

fn roadmap() -> ConfluenceRoadmap {
    ConfluenceRoadmap {
        query_set: QuerySet(vec![]),
        confluence: ConfluenceServer {
            base_url: "https://wiki.example.com".to_string(),
            access: Access::Token(Secret::String("token".to_string())),
        },
        space: "SP".to_string(),
        title: "Page".to_string(),
        show_epics: true,
        show_team_roadmaps: true,
        dependencies_deepness: 1,
        foreign_relations: vec![],
    }
}

#[test]
fn schedule_colors_by_urgency() {
    let j = server("https://jira.example.com");
    let today = Date { year: 2024, month: 6, day: 15 };
    let urgent = record(
        &j,
        "AB-1",
        "s",
        vec![text("customfield_4", "2024-06-01"), text("customfield_5", "2024-06-16")],
        ReportIssueType::ReportMember,
    );
    assert_eq!(
        urgent.confluence_wiki_schedule(&today),
        "{color:red}2024-06-01 - 2024-06-16{color}"
    );
    let started = record(
        &j,
        "AB-2",
        "s",
        vec![text("customfield_4", "2024-06-16"), text("customfield_5", "2024-07-20")],
        ReportIssueType::ReportMember,
    );
    assert_eq!(
        started.confluence_wiki_schedule(&today),
        "{color:green}2024-06-16 - 2024-07-20{color}"
    );
    let calm = record(
        &j,
        "AB-3",
        "s",
        vec![text("customfield_4", "2024-07-01"), text("customfield_5", "2024-08-01")],
        ReportIssueType::ReportMember,
    );
    assert_eq!(calm.confluence_wiki_schedule(&today), "2024-07-01 - 2024-08-01");
    let unplanned = record(&j, "AB-4", "s", vec![], ReportIssueType::ReportMember);
    assert_eq!(unplanned.confluence_wiki_schedule(&today), "");
}

#[test]
fn plan_renders_partial_windows() {
    let j = server("https://jira.example.com");
    let only_end = record(
        &j,
        "AB-1",
        "s",
        vec![text("customfield_5", "2024-06-16")],
        ReportIssueType::ReportMember,
    );
    assert_eq!(only_end.custom_fields.plan(), "? - 2024-06-16");
}

#[test]
fn wiki_url_cell_carries_the_break_flag() {
    let j = server("https://jira.example.com");
    let i = record(&j, "AB-1", "s", vec![], ReportIssueType::ReportMember);
    assert_eq!(
        i.confluence_wiki_url(true),
        "[AB-1|https://jira.example.com/browse/AB-1] \\\\ Open"
    );
    assert_eq!(
        i.confluence_wiki_url(false),
        "[AB-1|https://jira.example.com/browse/AB-1]  Open"
    );
}

#[test]
fn general_list_renders_one_row_per_issue() {
    let j = server("https://jira.example.com");
    let today = Date { year: 2024, month: 6, day: 15 };
    let epic = record(
        &j,
        "EPIC-9",
        "epic summary",
        vec![text("customfield_3", "The Epic")],
        ReportIssueType::Epic,
    );
    let member = record(
        &j,
        "AB-1",
        "member summary",
        vec![text("customfield_2", "EPIC-9")],
        ReportIssueType::ReportMember,
    );
    let mut data = ReportData {
        issues: IssuesList::new(),
        epics: IssuesList::new(),
        relations: RelationSet::new(),
    };
    data.issues.insert(&member);
    data.issues.insert(&epic);
    data.epics.insert(&epic);
    let out = roadmap().make_general_list(&data, &[&member], &today);
    assert_eq!(
        out,
        "|  *member summary* | The Epic | [AB-1|https://jira.example.com/browse/AB-1] \\\\ Open |  |\n"
    );
}

#[test]
fn epic_table_lists_referenced_named_epics_once() {
    let j = server("https://jira.example.com");
    let epic = record(
        &j,
        "EPIC-9",
        "epic summary",
        vec![text("customfield_3", "The Epic"), text("customfield_1", "why")],
        ReportIssueType::Epic,
    );
    let unreferenced = record(
        &j,
        "EPIC-10",
        "other epic",
        vec![text("customfield_3", "Unused Epic")],
        ReportIssueType::Epic,
    );
    let member = record(
        &j,
        "AB-1",
        "member summary",
        vec![text("customfield_2", "EPIC-9")],
        ReportIssueType::ReportMember,
    );
    let mut data = ReportData {
        issues: IssuesList::new(),
        epics: IssuesList::new(),
        relations: RelationSet::new(),
    };
    data.epics.insert(&epic);
    data.epics.insert(&unreferenced);
    let out = roadmap().make_epics(&data, &[&member]);
    assert_eq!(
        out,
        "\nh1. Эпики\n\n|| Эпик || Описание эпика ||\n| [The Epic|https://jira.example.com/browse/EPIC-9] | why |\n"
    );
}

#[test]
fn team_chapter_groups_by_assignee_sorted() {
    let j = server("https://jira.example.com");
    let today = Date { year: 2024, month: 6, day: 15 };
    let mut a1 = record(&j, "AB-1", "zulu task", vec![], ReportIssueType::ReportMember);
    a1.issue.fields.assignee_display_name = Some("Zoe".to_string());
    let mut a2 = record(&j, "AB-2", "alpha task", vec![], ReportIssueType::ReportMember);
    a2.issue.fields.assignee_display_name = Some("Ann".to_string());
    let unassigned = record(&j, "AB-3", "loose task", vec![], ReportIssueType::ReportMember);
    let data = ReportData {
        issues: IssuesList::new(),
        epics: IssuesList::new(),
        relations: RelationSet::new(),
    };
    let out = roadmap().make_team_roadmaps(&data, &[&a1, &a2, &unassigned], &today);
    let no_assignee = out.find("Без исполнителя (1 задач)").unwrap();
    let ann = out.find("h2. Ann (1 задач)").unwrap();
    let zoe = out.find("h2. Zoe (1 задач)").unwrap();
    assert!(out.starts_with("\nh1. Команда\n\n"));
    assert!(no_assignee < ann && ann < zoe);
    assert!(out.contains("| loose task |  | [AB-3|https://jira.example.com/browse/AB-3]  Open |  |\n"));
}

#[test]
fn generate_sorts_members_and_assembles_sections() {
    let j = server("https://jira.example.com");
    let today = Date { year: 2024, month: 6, day: 15 };
    // no planning dates: creation stamp breaks the tie, so B-1 comes first
    let mut early = record(&j, "B-1", "created first", vec![], ReportIssueType::ReportMember);
    early.issue.fields.created = "2024-01-01T08:00:00".to_string();
    early.custom_fields.epic_link = None;
    let mut late = record(&j, "A-1", "created later", vec![], ReportIssueType::ReportMember);
    late.issue.fields.created = "2024-02-01T08:00:00".to_string();
    // an issue with a planned end sorts before both
    let planned = record(
        &j,
        "C-1",
        "planned task",
        vec![text("customfield_5", "2024-12-01")],
        ReportIssueType::ReportMember,
    );
    let external = record(&j, "X-1", "external", vec![], ReportIssueType::ExternalDependency);
    let mut data = ReportData {
        issues: IssuesList::new(),
        epics: IssuesList::new(),
        relations: RelationSet::new(),
    };
    data.issues.insert(&early);
    data.issues.insert(&late);
    data.issues.insert(&planned);
    data.issues.insert(&external);
    let mut config = roadmap();
    config.show_team_roadmaps = false;
    let out = config.generate(&data, &today);
    assert!(out.starts_with("\nh1. Задачи\n\n|| Описание таска || Эпик || Jira-таск || Сроки ||\n"));
    let c = out.find("*planned task*").unwrap();
    let b = out.find("*created first*").unwrap();
    let a = out.find("*created later*").unwrap();
    assert!(c < b && b < a);
    // the external dependency is not a member row
    assert!(!out.contains("*external*"));
    assert!(out.contains("\nh1. Эпики\n"));
    assert!(!out.contains("\nh1. Команда\n"));
    assert!(out.ends_with("\nh1. Граф зависимостей\n\n!dependency_graph.svg!\n"));
}
