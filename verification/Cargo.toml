[package]
name = "stackalert"
version = "0.1.0"
edition = "2021"
publish = false

[dependencies]
anyhow = "1"
aws-config = "1"
aws-credential-types = "1"
aws-sdk-costexplorer = "1"
aws-sdk-ses = "1"
aws-sdk-sns = "1"
aws-sdk-ssm = "1"
aws-sdk-sts = "1"
chrono = "0.4"
futures-util = "0.3"
lambda_runtime = "*"
once_cell = "1"
reqwest = { version = "0.12", features = ["json", "rustls-tls"], default-features = false }
serde = { version = "1", features = ["derive"] }
serde_json = "1"
tokio = { version = "1", features = ["macros", "rt-multi-thread", "sync"] }
tracing = "0.1"
tracing-subscriber = { version = "0.3", features = ["env-filter", "json"] }
