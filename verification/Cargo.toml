[package]
name = "aide_sandbox"
version = "0.1.0"
edition = "2021"
publish = false

[dependencies]
anyhow = "*"
chrono = "*"
clap = { version = "*", features = ["derive"] }
clap_complete = "*"
colored = "*"
dirs = "*"
serde = { version = "*", features = ["derive"] }
serde_json = "*"
tokio = { version = "*", features = ["macros", "process", "rt-multi-thread", "time"] }
