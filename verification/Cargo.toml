[package]
name = "blobert"
version = "0.1.0"
edition = "2021"
publish = false

[dependencies]
actix-web = { version = "4", default-features = false, features = ["macros", "rustls"] }
anyhow = "1"
byte-unit = "4"
bytes = "1"
env_logger = "0.9"
futures = "0.3"
log = "0.4"
regex = "1"
rustls = "0.20"
rustls-pemfile = "1"
serde = { version = "1", features = ["derive"] }
serde_json = "1"
sha2 = "0.10"
structopt = "0.3"
uuid = { version = "1", features = ["v4"] }
