[package]
name = "glide"
version = "0.1.0"
edition = "2021"
publish = false

[dependencies]
anyhow = "1"
arboard = "3"
bytes = "1"
clap = { version = "4", features = ["derive"] }
futures = "0.3"
input-capture = { version = "*", default-features = false, features = ["layer_shell"] }
input-emulation = { version = "*", default-features = false, features = ["wlroots"] }
input-event = { version = "*", default-features = false }
quinn = "0.11"
rcgen = "0.13"
rustls = { version = "0.23", default-features = false, features = ["std", "ring", "tls12", "logging"] }
serde = { version = "1", features = ["derive"] }
serde_json = "1"
sha2 = "0.10"
tokio = { version = "1", features = ["rt-multi-thread", "macros", "sync", "time", "io-util", "signal", "net"] }
toml = "0.8"
tracing = "0.1"
tracing-subscriber = { version = "0.3", features = ["env-filter"] }
wl-clipboard-rs = "0.9"
