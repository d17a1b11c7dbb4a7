[package]
name = "decoy"
version = "0.1.0"
edition = "2021"
publish = false

[dependencies]
regex = "=1.13.1"
async-trait = "=0.1.92"
clap = { version = "=4.6.7", features = ["derive"] }
env_logger = "=0.11.11"
futures = "=0.3.34"
glob = "=0.3.4"
log = "=0.4.34"
serde = { version = "=1.0.229", features = ["derive"] }
serde_yaml = "0.9.34"
thrussh = "=0.49.0"
thrussh-keys = "=0.44.0"
tokio = { version = "=1.54.1", features = ["rt-multi-thread", "macros", "process", "time", "sync"] }
