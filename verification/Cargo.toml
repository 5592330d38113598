[package]
name = "hypha"
version = "0.1.0"
edition = "2021"
publish = false

[dependencies]
actix-web = { version = "=4.18.1", default-features = false, features = ["macros"] }
anyhow = "=1.0.104"
clap = { version = "=4.6.7", features = ["derive"] }
dotenvy_macro = "=0.15.7"
embassy-executor = { version = "=0.9.1", features = ["arch-std", "executor-thread"] }
embassy-futures = "=0.1.2"
embassy-sync = "=0.8.0"
embassy-time = { version = "=0.5.1", features = ["std"] }
embedded-svc = "=0.29.0"
esp-idf-hal = "=0.47.0"
esp-idf-svc = "=0.53.0"
log = "=0.4.35"
serde = { version = "=1.0.229", features = ["derive"] }
serde_json = "=1.0.154"
thiserror = "=2.0.21"
tokio = { version = "=1.54.1", features = ["sync", "macros", "rt"] }
tracing = "=0.1.44"
tracing-subscriber = "=0.3.23"
zbus = "=6.2.1"
zbus_systemd = { version = "=0.26201.0", features = ["systemd1"] }
