[package]
name = "experiments"
version = "0.1.0"
edition = "2021"
publish = false

[dependencies]
md5 = "=0.8.1"
serde = { version = "=1.0.229", features = ["derive"] }
serde_json = "=1.0.154"
reqwest = { version = "=0.12.28", default-features = false, features = ["json", "rustls-tls"] }
tokio = { version = "=1.54.1", features = ["macros", "rt-multi-thread"] }
clap = { version = "=4.6.7", features = ["derive"] }
dotenv = "=0.15.0"
env_logger = "=0.11.11"
log = "=0.4.35"
sqlx = { version = "=0.9.0", default-features = false, features = ["postgres", "runtime-tokio"] }
new_york_calculate_core = "=0.0.52"
new_york_utils = "=0.1.12"
vivalaakam_neat_rs = "=0.1.16"
