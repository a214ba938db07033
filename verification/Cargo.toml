[package]
name = "ludusavi_manifest"
version = "0.1.0"
edition = "2021"
publish = false

[dependencies]
wikitext-parser = "*"
serde = { version = "*", features = ["derive"] }
serde_json = "*"
serde_yaml = "*"
clap = { version = "*", features = ["derive"] }
chrono = { version = "*", features = ["serde"] }
tokio = { version = "*", features = ["macros", "rt-multi-thread"] }
mediawiki = "*"
signal-hook = "*"
jsonschema = { version = "*", default-features = false }
