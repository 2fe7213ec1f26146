[package]
name = "rmap"
version = "0.1.0"
edition = "2021"
publish = false

[dependencies]
aes = "0.8"
base64 = "0.22"
chrono = { version = "0.4", features = ["serde"] }
serde = { version = "1", features = ["derive"] }
serde_json = "1"
json = "0.12"
axum = "0.7"
tokio = { version = "1", features = ["full"] }
tower = { version = "0.4", features = ["buffer", "limit", "util"] }
tower-http = { version = "0.5", features = ["fs"] }
tower-sessions = "0.12"
handlebars = { version = "4", features = ["dir_source"] }
reqwest = { version = "0.12", features = ["json"] }
lambda_http = "0.11"
lambda_runtime = "0.11"
futures = "0.3"
dotenv = "0.15"
tracing = "0.1"
tracing-subscriber = "0.3"
aws-config = { version = "1", features = ["behavior-version-latest"] }
aws-sdk-dynamodb = "1"
aws-sdk-s3 = "1"
