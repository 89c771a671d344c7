[package]
name = "fancontroller"
version = "0.1.0"
edition = "2021"
publish = false

[dependencies]
anyhow = "=1.0.104"
serde = { version = "=1.0.229", features = ["derive"] }
serde_json = "=1.0.154"
glob = "=0.3.4"
nvml-wrapper = "=0.11.0"
ctrlc = "=3.5.2"
gtk = "=0.18.2"
gio = "=0.18.4"
glib = "=0.18.5"
webkit2gtk = "=2.0.2"
