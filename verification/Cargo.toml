[package]
name = "brp"
version = "0.1.0"
edition = "2021"
publish = false

[dependencies]
iroh-base = { version = "=1.4.1", features = ["key", "relay"] }
serde = { version = "=1.0.229", features = ["derive"] }
toml = "=1.1.8"
clap = { version = "=4.6.7", features = ["derive"] }
thiserror = "=2.0.21"
tracing = "=0.1.44"
tracing-subscriber = { version = "=0.3.23", features = ["env-filter"] }
directories = "=6.0.0"
data-encoding = "=2.11.1"
tokio = { version = "=1.54.1", features = ["rt-multi-thread", "time", "signal", "macros"] }
pollster = "=1.0.1"
bytemuck = { version = "=1.25.2", features = ["derive"] }
