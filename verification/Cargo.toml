[package]
name = "rcfakeclient"
version = "0.1.0"
edition = "2021"
publish = false

[dependencies]
aes = "0.8"
block-padding = "0.3"
cbc = "0.1"
netdev = "*"
num-bigint = { version = "0.4", features = ["rand"] }
pnet = "*"
rand = "0.8"
sha2 = "0.10"
tokio = { version = "1", features = ["rt-multi-thread", "macros", "sync"] }
