[package]
name = "loco_protocol"
version = "0.1.0"
edition = "2021"
publish = false

[dependencies]
libaes = "0.7"
rsa = "0.6"
rand = "0.8"
sha1 = "0.10"
bson = "2"
tokio = { version = "1", default-features = false, features = ["rt", "rt-multi-thread", "sync", "time", "io-util"] }
futures = "0.3"
log = "0.4"
