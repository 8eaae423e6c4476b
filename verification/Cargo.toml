[package]
name = "kbwatch"
version = "0.1.0"
edition = "2021"
publish = false

[dependencies]
anyhow = "*"
chrono = "*"
crossbeam-channel = "*"
ctrlc = "*"
directories = "*"
hostname = "*"
log = "*"
reqwest = { version = "*", default-features = false, features = ["blocking", "rustls-tls"] }
rusb = "*"
serde_json = "*"
simple-log = "*"
