[package]
name = "syllibot"
version = "0.1.0"
edition = "2021"
publish = false

[dependencies]
lingua = { version = "=1.8.0", default-features = false, features = ["english", "polish", "french", "german", "spanish", "romanian", "turkish", "dutch", "swedish", "slovene", "portuguese", "italian", "russian", "ukrainian", "greek", "czech", "hungarian"] }
tokio = { version = "=1.53.2", features = ["macros", "rt-multi-thread", "fs", "io-util"] }
reqwest = "=0.13.5"
poise = "=0.7.0"
dotenv = "=0.15.0"
env_logger = "=0.11.11"
log = "=0.4.34"
deadpool-postgres = { version = "=0.14.2", features = ["serde"] }
tokio-postgres = "=0.7.18"
serde = { version = "=1.0.229", features = ["derive"] }
config = "=0.15.27"

[dev-dependencies]
base64 = "=0.23.1"
serde_json = "=1.0.151"
