[package]
name = "schemaui"
version = "0.1.0"
edition = "2021"
publish = false

[dependencies]
anyhow = "1"
serde_json = "1"
serde_yaml = "*"
toml = "*"
clap = { version = "4", features = ["derive"] }
crossterm = "*"
ratatui = "*"
jsonschema = { version = "*", default-features = false }
percent-encoding = "2"
quick-xml = "*"
pulldown-cmark = { version = "*", default-features = false, features = ["html"] }
ammonia = "*"
unicode-width = "*"
textwrap = "*"
mermaid-rs-renderer = { version = "*", default-features = false }
