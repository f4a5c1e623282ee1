[package]
name = "sinqtt"
version = "0.1.0"
edition = "2021"
publish = false

[dependencies]
base64 = "*"
chrono = "*"
clap = { version = "*", features = ["derive"] }
cron = "*"
evalexpr = "*"
flate2 = "*"
jsonpath-rust = "*"
reqwest = { version = "*", default-features = false, features = ["json", "rustls-tls"] }
rumqttc = { version = "*", features = ["use-rustls"] }
rustls = "*"
rustls-pemfile = "*"
serde = { version = "*", features = ["derive"] }
serde_json = "*"
serde_yaml = "*"
tokio = { version = "*", features = ["macros", "rt-multi-thread", "signal", "sync", "time"] }
tokio-util = "*"
tracing = "*"
tracing-subscriber = { version = "*", features = ["env-filter"] }

[dev-dependencies]
