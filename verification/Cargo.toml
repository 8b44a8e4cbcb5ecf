[package]
name = "issues"
version = "0.1.0"
edition = "2021"
publish = false

[dependencies]
anstyle = "1"
pulldown-cmark = { version = "0.13", default-features = false }
chrono = { version = "0.4", default-features = false, features = ["clock", "std"] }
clap = { version = "4", features = ["derive", "env"] }
anyhow = "1"
rusqlite = { version = "*", features = ["bundled"] }
