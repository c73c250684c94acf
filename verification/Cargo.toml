[package]
name = "jsonl_reassembler"
version = "0.1.0"
edition = "2021"
publish = false

[dependencies]
aws-config = { version = "=1.12.0", features = ["behavior-version-latest"] }
aws-sdk-s3 = { version = "=1.152.0", features = ["behavior-version-latest"] }
aws-types = "=1.6.0"
serde = { version = "=1.0.229", features = ["derive"] }
serde_json = "=1.0.154"
tokio = { version = "=1.54.1", features = ["macros", "rt-multi-thread"] }
