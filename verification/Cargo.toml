[package]
name = "deps_core"
version = "0.1.0"
edition = "2021"
publish = false

[dependencies]
async-trait = "0.1"
bytes = "1"
dashmap = "6"
futures = "0.3"
libc = "0.2"
reqwest = { version = "0.12", default-features = false }
serde = { version = "1", features = ["derive"] }
serde_json = "1"
thiserror = "2"
time = { version = "0.3", features = ["parsing"] }
tokio = { version = "1", features = ["macros", "rt", "sync", "time"] }
tower-lsp = "0.20"
tower-lsp-server = "*"
tracing = "0.1"
url = "2"
urlencoding = "2"
