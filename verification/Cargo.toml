[package]
name = "hockey_reminder"
version = "0.1.0"
edition = "2021"
publish = false

[dependencies]
chrono = "*"
chrono-tz = "*"
icalendar = "*"
serde = { version = "*", features = ["derive"] }
serde_json = "*"
ureq = { version = "*", features = ["json"] }
lambda_runtime = "*"
tokio = { version = "*", features = ["macros", "rt-multi-thread"] }
tracing = "*"
tracing-subscriber = { version = "*", features = ["json"] }
