[package]
name = "eventstore"
version = "0.1.0"
edition = "2021"
publish = false

[lints.rust]
unexpected_cfgs = { level = "warn", check-cfg = ['cfg(verus_only)'] }

[dependencies]
uuid = { version = "=1.27.0", features = ["v4"] }
chrono = "=0.4.45"
serde = { version = "=1.0.229", features = ["derive"] }
serde_json = "=1.0.151"
rusqlite = { version = "=0.40.2", features = ["bundled"] }
warp = { version = "=0.4.3", features = ["server", "websocket"] }
tokio = { version = "=1.53.2", features = ["full"] }
futures = "=0.3.34"
log = "=0.4.34"
pretty_env_logger = "=0.5.0"
rusoto_core = { version = "=0.48.0", default-features = false, features = ["rustls"] }
rusoto_dynamodb = { version = "=0.48.0", default-features = false, features = ["rustls"] }
bytes = "=1.12.1"
