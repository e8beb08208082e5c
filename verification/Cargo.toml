[package]
name = "rconfd"
version = "0.1.0"
edition = "2021"
publish = false

[dependencies]
anyhow = "1"
argh = "*"
async-std = "1"
env_logger = "*"
http = "*"
isahc = "1"
jrsonnet-evaluator = "0.4"
jrsonnet-interner = "0.4"
libc = "0.2"
log = "0.4"
serde = { version = "1", features = ["derive"] }
serde_json = "1"
sha1 = "*"
