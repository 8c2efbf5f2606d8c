[package]
name = "gateway_routing"
version = "0.1.0"
edition = "2021"
publish = false

[dependencies]
http = "1"
uuid = { version = "1", features = ["v4"] }
anyhow = "1"
async-trait = "0.1"
axum = "*"
dotenvy = "0.15"
hickory-resolver = "0.25"
once_cell = "1"
pingora = { version = "*", features = ["rustls"] }
rustls = { version = "0.23", features = ["ring"] }
serde = { version = "1", features = ["derive"] }
tokio = { version = "1", features = ["full"] }
toml = "*"
tower-http = { version = "*", features = ["fs", "trace"] }
tracing = "0.1"
tracing-subscriber = "0.3"
