[package]
name = "eve_arbitrage"
version = "0.1.0"
edition = "2021"
publish = false

[dependencies]
egui = { version = "0.27", default-features = false, features = ["default_fonts"] }
egui_extras = { version = "0.27", default-features = false }
env_logger = { version = "0.11", default-features = false }
error-chain = { version = "0.12", default-features = false }
numfmt = "1"
reqwest = { version = "0.12", default-features = false, features = ["default-tls"] }
rusqlite = "0.31"
serde = { version = "1", features = ["derive"] }
serde-xml-rs = "0.6"
struct-field-names-as-array = "0.3"
tokio = { version = "1", features = ["macros", "rt-multi-thread"] }
