[package]
name = "steam_cli_launcher"
version = "0.1.0"
edition = "2021"
publish = false

[dependencies]
sqlite = "*"
anyhow = "*"
dirs = "*"
reqwest = "*"
serde = { version = "*", features = ["derive"] }
serde_json = "*"
tokio = { version = "*", features = ["macros", "rt-multi-thread"] }
