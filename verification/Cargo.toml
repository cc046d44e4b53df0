[package]
name = "star_stuff"
version = "0.1.0"
edition = "2021"
publish = false

[dependencies]
byteorder = "1"
regex = "1"
tempfile = "3"
serde = { version = "1", features = ["derive"] }
serde_json = "1"
statistical = "*"
num = "*"
rand = "*"
log = "0.4"
env_logger = "*"
crossbeam = "*"
