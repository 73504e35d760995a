[package]
name = "dscheck"
version = "0.1.0"
edition = "2021"
publish = false

[dependencies]
assertables = "*"
byteorder = "1"
clap = "2"
dslib = "*"
env_logger = "0.9"
log = "0.4"
md5 = "0.7"
rand = "0.8"
rand_pcg = "0.3"
serde = { version = "1", features = ["derive"] }
serde_json = "1"
sugars = "3"
