[package]
name = "boltzmann"
version = "0.1.0"
edition = "2021"
publish = false

[dependencies]
anyhow = "1"
atty = "0.2"
clap = { version = "3", features = ["derive"] }
log = "0.4"
loggerv = "0.7"
owo-colors = "3"
prettytable-rs = "0.8"
pulldown-cmark = "0.8"
pulldown-cmark-to-cmark = "6"
ron = "0.7"
semver = { version = "1", features = ["serde"] }
serde = { version = "1", features = ["derive"] }
serde_json = "1"
slug = "0.1"
subprocess = "0.2"
tera = "1"
