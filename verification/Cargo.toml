[package]
name = "activity_digest"
version = "0.1.0"
edition = "2021"
publish = false

[dependencies]
anyhow = "1"
chrono = { version = "0.4", features = ["serde"] }
github_v3 = "*"
serde = { version = "1", features = ["derive"] }
serde_derive = "1"
serde_json = "1"
simple_logger = "*"
structopt = "0.3"
tokio = { version = "1", features = ["macros", "rt-multi-thread"] }
