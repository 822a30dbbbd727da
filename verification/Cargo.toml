[package]
name = "modkist"
version = "0.1.0"
edition = "2021"
publish = false

[dependencies]
time = { version = "0.3", features = ["formatting"] }
serde = { version = "1", features = ["derive"] }
serde_json = "1"
sysinfo = "0.33"
zip = { version = "2", default-features = false, features = ["deflate"] }
pelite = "0.10"
dotenvy = "0.15"
log = "0.4"
url = "2"
