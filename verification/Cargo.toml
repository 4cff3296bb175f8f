[package]
name = "pico_io_finder"
version = "0.1.0"
edition = "2021"
publish = false

[dependencies]
mdns-sd-discovery = "*"
reqwest = { version = "*", default-features = false }
serde = { version = "1", features = ["derive"] }
serde_json = "1"
thiserror = "*"
tokio = { version = "1", features = ["macros", "rt-multi-thread", "sync", "time", "signal"] }
