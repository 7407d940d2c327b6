[package]
name = "brokkr"
version = "0.1.0"
edition = "2021"
publish = false

[dependencies]
clap = { version = "4", features = ["derive"] }
libc = "0.2"
png = "0.18"
rusqlite = { version = "*", features = ["bundled"] }
rustc_lexer = "*"
serde = { version = "1", features = ["derive"] }
serde_json = "1"
toml = "*"
toml_edit = "*"
xxhash-rust = { version = "0.8", features = ["xxh3"] }
