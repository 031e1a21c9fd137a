[package]
name = "nettest"
version = "0.1.0"
edition = "2021"
publish = false

[dependencies]
anyhow = "1"
async-std = { version = "1", features = ["attributes"] }
log = "0.4"
quiche = "0.5"
rand = "0.7"
rand_xoshiro = "0.4"
serde = { version = "1", features = ["derive"] }
serde_json = "1"
socket2 = "0.3"
structopt = "0.3"
ureq = { version = "1", features = ["json"] }
