[package]
name = "registry_index"
version = "0.1.0"
edition = "2021"
publish = false

[dependencies]
actix-web = { version = "4", default-features = false, features = ["macros"] }
async-trait = "0.1"
cidr = "0.2"
clap = { version = "4", features = ["derive", "env"] }
env_logger = "0.11"
futures-util = "0.3"
git2 = { version = "0.19", default-features = false }
hickory-client = "0.24"
hickory-server = "0.24"
lazy_static = "1"
log = "0.4"
regex = "1"
serde = { version = "1", features = ["derive"] }
serde_yaml = "0.9"
simple-error = "0.3"
tokio = { version = "1", features = ["rt-multi-thread", "macros", "net", "io-util", "time", "signal", "sync"] }
tokio-util = "0.7"
