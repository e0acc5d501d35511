[package]
name = "wikilite"
version = "0.1.0"
edition = "2021"
publish = false

[dependencies]
ammonia = "=4.2.4"
anyhow = "=1.0.104"
async-sqlite = "=0.6.0"
axum = { version = "=0.8.9", features = ["multipart"] }
cfg-if = "=1.0.5"
clap = { version = "=4.6.7", features = ["derive"] }
html5ever = "=0.25.2"
kuchiki = "=0.8.1"
mime_guess = "=2.0.5"
oauth-axum = "=0.1.4"
open = "=5.4.5"
regex = "=1.13.1"
serde = { version = "=1.0.229", features = ["derive"] }
sql_query_builder = "=2.7.2"
thiserror = "=2.0.21"
time = { version = "=0.3.55", features = ["formatting"] }
tokio = { version = "=1.54.1", features = ["full"] }
toml = "=1.1.8"
tower = "=0.5.3"
tower-http = { version = "=0.7.1", features = ["fs"] }
tracing = "=0.1.44"
tracing-appender = "=0.2.5"
tracing-subscriber = { version = "=0.3.23", features = ["env-filter", "json"] }
uuid = { version = "=1.29.0", features = ["serde", "v4"] }
