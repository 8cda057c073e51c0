[package]
name = "deboa"
version = "0.1.0"
edition = "2021"
publish = false

[dependencies]
http = "=1.5.0"
url = "=2.5.8"
base64 = "=0.22.1"
urlencoding = "=2.1.3"
indexmap = "=2.14.2"
rand = "=0.9.5"
minimime = "=1.0.0"
hashbrown = "=0.17.1"
bytes = "=1.12.1"
serde = { version = "=1.0.229", features = ["derive"] }
http-body-util = "=0.1.5"
hyper = { version = "=1.12.0", default-features = false }
proc-macro2 = "=1.0.107"
syn = { version = "=2.0.119", features = ["full", "parsing"] }

[dev-dependencies]
regex = "=1.13.1"
