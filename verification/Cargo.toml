[package]
name = "c21logcounter"
version = "0.1.0"
edition = "2021"
publish = false

[dependencies]
regex = "1"
chrono = "0.4"
encoding = "0.2"
serde = "1"
serde_derive = "1"
toml = "0.8"
sysinfo = "0.30"
ureq = { version = "2", default-features = false }
webbrowser = "0.8"
