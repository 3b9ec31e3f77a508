[package]
name = "my_no_sql_server"
version = "0.1.0"
edition = "2021"
publish = false

[dependencies]
async-trait = "0.1.92"
base64 = "=0.13.1"
chrono = "0.4.45"
prometheus = { version = "0.14.0", default-features = false }
serde = { version = "1.0.229", features = ["derive"] }
serde_json = "1.0.154"
tokio = { version = "1.54.1", features = ["full"] }
uuid = { version = "1.29.1", features = ["v4"] }
