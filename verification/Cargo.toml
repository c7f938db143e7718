[package]
name = "uprava"
version = "0.1.0"
edition = "2021"
publish = false

[dependencies]
anyhow = "1"
atlassian-jira-rest-types = "*"
chrono = "0.4"
reqwest = { version = "*", default-features = false }
serde = { version = "1", features = ["derive"] }
serde_json = "1"
serde_yaml = "*"
tokio = { version = "1", features = ["rt-multi-thread"] }
url = "2"
