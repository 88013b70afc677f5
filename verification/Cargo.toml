[package]
name = "tdds-core"
version = "0.1.0"
edition = "2021"
publish = false

[dependencies]
thetadatadx-rs = { version = "=0.8.2", features = ["arrow", "__internal"] }
chrono = "=0.4.45"
chrono-tz = "=0.10.4"
serde = { version = "=1.0.229", features = ["derive"] }
serde_json = "=1.0.154"
sqlx = { version = "=0.8.6", default-features = false, features = ["sqlite", "runtime-tokio", "macros"] }
tokio = { version = "=1.54.1", features = ["full"] }
uuid = { version = "=1.29.0", features = ["v4"] }
arrow-array = "=60.1.0"
arrow-schema = "=60.1.0"
arrow-csv = "=60.1.0"
arrow-json = "=60.1.0"
parquet = { version = "=60.1.0", default-features = false, features = ["arrow", "zstd"] }
reqwest = { version = "=0.12.28", default-features = false, features = ["rustls-tls"] }
clap = { version = "=4.6.7", features = ["derive", "env"] }
anyhow = "=1.0.104"
thiserror = "=1.0.69"
tracing = "=0.1.44"
tracing-subscriber = { version = "=0.3.23", features = ["env-filter"] }
futures = "=0.3.34"
rustls = { version = "=0.23.46", default-features = false, features = ["ring"] }
