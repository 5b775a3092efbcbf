[package]
name = "awsdiag"
version = "0.1.0"
edition = "2021"
publish = false

[dependencies]
aws-config = { version = "=1.13.0" }
aws-credential-types = { version = "=1.3.1" }
aws-sdk-cloudwatch = { version = "=1.140.0", default-features = false, features = ["rt-tokio"] }
aws-sdk-cloudwatchlogs = { version = "=1.162.0", default-features = false, features = ["rt-tokio"] }
aws-sdk-sts = { version = "=1.124.0", default-features = false, features = ["rt-tokio"] }
aws-smithy-types = { version = "=1.9.1" }
aws-types = { version = "=1.7.0" }
chrono = { version = "=0.4.45", features = ["serde"] }
clap = { version = "=4.6.7", features = ["derive"] }
futures = "=0.3.34"
globset = "=0.4.21"
indicatif = "=0.18.6"
serde = { version = "=1.0.229", features = ["derive"] }
serde_json = { version = "=1.0.154", features = ["preserve_order"] }
thiserror = "=2.0.21"
tokio = { version = "=1.54.1", features = ["macros", "rt-multi-thread"] }
