[package]
name = "osbuild_cfg"
version = "0.1.0"
edition = "2021"
publish = false

[dependencies]
anyhow = "1"
camino = "1"
cap-std-ext = "4"
clap = { version = "4", features = ["derive"] }
data-encoding = "2"
either = "1"
fn-error-context = "0.2"
rustix = { version = "0.38", features = ["process"] }
serde = { version = "1", features = ["derive"] }
toml = "0.8"
tracing = "0.1"
tracing-subscriber = { version = "0.3", features = ["env-filter"] }
