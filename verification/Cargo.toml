[package]
name = "zecor-secretscan"
version = "0.1.0"
edition = "2021"
publish = false

[dependencies]
aho-corasick = "1"
ignore = "0.4"
rayon = "1"
regex = "1"
serde = { version = "1", features = ["derive"] }
serde_json = "1"
