[package]
name = "patmat"
version = "0.1.0"
edition = "2021"
publish = false

[dependencies]
gix = { version = "=0.90.0", features = ["blocking-network-client", "progress-tree"] }
indexmap = "=2.14.2"
lucide-icons = "=1.66.0"
tokio = { version = "=1.54.1", features = ["full"] }
color-eyre = "=0.6.5"
serde = { version = "=1.0.229", features = ["derive"] }
serde-saphyr = "=2.0.0"
async-trait = "=0.1.92"
derive-new = "=0.7.0"
derive-where = "=1.7.0"
dyn-clone = "=1.0.20"
arc-swap = "=1.9.3"

[dev-dependencies]
tempfile = "=3.27.0"
