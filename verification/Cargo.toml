[package]
name = "camwatch-motion-detection"
version = "0.1.0"
edition = "2021"
publish = false

[dependencies]
base64 = "0.22"
chrono = { version = "0.4", default-features = false, features = ["alloc", "std"] }
clap = { version = "4", features = ["derive"] }
ctrlc = "3"
image = { version = "0.25", default-features = false, features = ["jpeg"] }
rumqttc = { version = "0.24", default-features = false }
serde = { version = "1", features = ["derive"] }
serde_json = "1"
thiserror = "2"
toml = "0.8"
tracing = "0.1"
tracing-subscriber = { version = "0.3", features = ["env-filter", "fmt"] }

[dev-dependencies]
tempfile = "3"
