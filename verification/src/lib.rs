//! Issue relation/graph assembly: cross-instance issue identities, an
//! idempotent issue store, relation-kind classification, bounded-depth
//! expansion over discovered links, and epic resolution.

pub mod authentication;
pub mod config;
pub mod confluence;
pub mod confluence_content_get;
pub mod confluence_content_update;
pub mod confluence_types;
pub mod dates;
pub mod jira;
pub mod jira_types;
pub mod printer;
pub mod report;
pub mod report_confluence_roadmap;
pub mod report_data;
pub mod report_dependency_graph;
pub mod report_roadmap;
pub mod report_storypoints;
pub mod report_worklog;
pub mod text;
