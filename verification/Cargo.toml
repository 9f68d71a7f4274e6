[package]
name = "rustcast"
version = "0.1.0"
edition = "2021"
publish = false

[dependencies]
rand = "=0.10.3"
sha2 = "=0.11.0"
async-trait = "=0.1.92"
tokio = { version = "=1.53.2", features = ["full"] }
futures = "=0.3.34"
serde = { version = "=1.0.229", features = ["derive"] }
serde_json = "=1.0.151"
clap = { version = "=4.6.7", features = ["derive"] }
chrono = "=0.4.45"
id3 = "=1.17.2"
mp3-duration = "=0.1.10"
object_store = { version = "=0.14.2", features = ["aws", "gcp"] }
