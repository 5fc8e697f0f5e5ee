[package]
name = "dht_hal"
version = "0.1.0"
edition = "2021"
publish = false

[dependencies]
embedded-hal = { version = "=0.2.7", features = ["unproven"] }
serde = { version = "=1.0.229", features = ["derive"] }

[dev-dependencies]
toml = "=0.5.11"
