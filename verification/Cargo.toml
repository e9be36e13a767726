[package]
name = "entity_mapper"
version = "0.1.0"
edition = "2021"
publish = false

[dependencies]
clap = "*"
serde = { version = "*", features = ["derive"] }
serde_yaml = "*"
url = "*"
reqwest = { version = "*", default-features = false, features = ["blocking"] }
postgres = "*"
rdkafka = "*"
futures = "*"
