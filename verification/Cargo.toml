[package]
name = "jj_vine"
version = "0.1.0"
edition = "2021"
publish = false

[dependencies]
clap = { version = "4", features = ["derive"] }
cli-table = "*"
dialoguer = "*"
itertools = "*"
owo-colors = "4"
serde = { version = "1", features = ["derive"] }
serde_json = "1"
toml = "*"
tracing = "0.1"
unicode-segmentation = "1"
which = "*"
