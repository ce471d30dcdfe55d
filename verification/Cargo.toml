[package]
name = "rcan_testing"
version = "0.1.0"
edition = "2021"
publish = false

[dependencies]
data-encoding = "=2.11.1"
humantime = "=2.4.0"
iroh = { version = "=1.4.1", default-features = false, features = ["tls-ring"] }
rcan = "=0.4.1"
serde = { version = "=1.0.229", features = ["derive"] }
postcard = { version = "=1.1.3", features = ["alloc"] }
toml = "=1.1.8"
anyhow = "=1.0.104"
ed25519-dalek = "=3.0.0"
rand = "=0.10.3"
chrono = { version = "=0.4.45", default-features = false, features = ["std", "now"] }
tracing = "=0.1.44"
tracing-subscriber = "=0.3.23"
tokio = { version = "=1.54.1", features = ["full"] }
clap = { version = "=4.6.7", default-features = false, features = ["std", "derive"] }
n0-error = "=1.0.1"
n0-future = "=0.3.2"
irpc = { version = "=0.17.0", default-features = false, features = ["derive"] }
