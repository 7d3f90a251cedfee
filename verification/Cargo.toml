[package]
name = "addon_reconciler"
version = "0.1.0"
edition = "2021"
publish = false

[dependencies]
multimap = "*"
hex = "*"
md-5 = "*"
anyhow = "*"
dirs = "*"
futures-util = "*"
glob = "*"
serde = { version = "*", features = ["derive"] }
serde_json = "*"
tokio = { version = "*", features = ["macros", "rt-multi-thread"] }
reqwest = { version = "*", default-features = false, features = ["json", "stream"] }
