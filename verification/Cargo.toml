[package]
name = "bag-address-lookup"
version = "0.1.0"
edition = "2021"
publish = false

[dependencies]
flate2 = "1"
quick-xml = "*"
serde_json = "1"
tokio = { version = "1", features = ["io-util", "macros", "net", "rt-multi-thread", "signal"] }
zip = { version = "*", default-features = false, features = ["deflate"] }
