[package]
name = "goldfish"
version = "0.1.0"
edition = "2021"
publish = false

[dependencies]
tokio = { version = "1", features = ["rt-multi-thread", "net", "io-util", "macros", "time", "signal", "sync"] }
log = "0.4"
env_logger = "0.11"
config = "0.14"
serde = { version = "1", features = ["derive"] }
clap = { version = "4", features = ["derive"] }

[dev-dependencies]
nom = "8"
