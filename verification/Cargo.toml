[package]
name = "test_api"
version = "0.1.0"
edition = "2021"
publish = false

[dependencies]
rand = "0.9"
uuid = { version = "1", features = ["v4"] }
time = { version = "0.3", features = ["formatting"] }
lipsum = "*"
tokio = { version = "1", features = ["sync"] }
serde = { version = "1", features = ["derive"] }
serde_json = "1"
aws-config = "1"
aws-sdk-dynamodb = "1"
aws-sdk-sqs = "1"
aws-sdk-lambda = "1"
testcontainers = "*"
testcontainers-modules = { version = "*", features = ["localstack"] }
