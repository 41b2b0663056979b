[package]
name = "external_config"
version = "0.1.0"
edition = "2021"
publish = false

[dependencies]
serde = { version = "=1.0.229", features = ["derive"] }
serde_json = { version = "=1.0.151", features = ["preserve_order"] }
json5 = "=1.3.1"
toml = "=1.1.6"
serde_yaml = "=0.9.34"
java-properties = "=2.0.0"
env-file-reader = "=0.3.0"
convert_case = "=0.12.0"
base64 = "=0.23.1"
humantime = "=2.4.0"
reqwest = { version = "=0.13.5", default-features = false, features = ["blocking"] }
kube = { version = "=3.1.0", features = ["client", "runtime", "derive"] }
k8s-openapi = { version = "=0.27.1", features = ["latest"] }
schemars = "=1.2.2"
tokio = { version = "=1.53.2", features = ["rt-multi-thread", "macros", "signal", "sync", "time"] }
tokio-util = "=0.7.19"
futures = "=0.3.34"
chrono = "=0.4.45"
