[package]
name = "orka"
version = "0.1.0"
edition = "2021"
publish = false

[dependencies]
anyhow = "=1.0.104"
async-trait = "=0.1.92"
base64 = "=0.22.1"
bytes = "=1.12.1"
chrono = "=0.4.45"
clap = { version = "=4.6.7", features = ["derive"] }
egui = "=0.32.3"
egui_dock = "=0.17.0"
futures = "=0.3.34"
fuzzy-matcher = "=0.3.7"
jsonschema = { version = "=0.17.1", default-features = false }
k8s-openapi = { version = "=0.29.0", features = ["latest"] }
kube = { version = "=5.0.0", default-features = false, features = ["client", "runtime", "ws", "rustls-tls", "ring"] }
metrics = "=0.21.1"
regex = "=1.13.1"
serde = { version = "=1.0.229", features = ["derive"] }
serde_json = "=1.0.154"
serde_yaml = "=0.9.34"
shell-escape = "=0.1.5"
smallvec = "=1.16.4"
syntect = { version = "*", default-features = false, features = ["parsing", "default-syntaxes", "default-themes", "regex-fancy"] }
tokio = { version = "=1.54.1", features = ["full"] }
tokio-util = { version = "=0.7.20", features = ["compat", "io"] }
tracing = "=0.1.44"
tracing-subscriber = { version = "=0.3.23", features = ["env-filter"] }
uuid = "=1.29.0"
vte = "=0.13.1"
webbrowser = "=1.2.6"
zstd = "=0.13.4"
