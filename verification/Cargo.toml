[package]
name = "report_host"
version = "0.1.0"
edition = "2021"
publish = false

[dependencies]
ipnet = "*"
zip = { version = "*", default-features = false, features = ["deflate"] }
axum = { version = "*", features = ["multipart"] }
tokio = { version = "*", features = ["full"] }
serde = { version = "*", features = ["derive"] }
serde_json = "*"
tower-http = { version = "*", features = ["fs"] }
tracing = "*"
tracing-subscriber = "*"
utoipa = "*"
utoipa-swagger-ui = { version = "*", features = ["axum", "vendored"] }
dotenvy = "*"
