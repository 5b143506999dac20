[package]
name = "oro_link"
version = "0.1.0"
edition = "2021"
publish = false

[dependencies]
aes = "0.8"
hex = "0.4"
rand = "0.8"
async-std = { version = "1", features = ["attributes"] }
async-io = "2"
envconfig = "0.11"
log = "0.4"
stderrlog = "0.6"
systemd-journal-logger = "2"
embedded-io-async = "0.6"
