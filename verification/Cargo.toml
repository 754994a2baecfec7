[package]
name = "memcache"
version = "0.1.0"
edition = "2021"
publish = false

[dependencies]
byteorder = "1"
enum_dispatch = "0.3"
openssl = "0.10"
r2d2 = "0.8"
rand = "0.8"
serde = "1"
url = "2"
