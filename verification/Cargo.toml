[package]
name = "quickshift"
version = "0.1.0"
edition = "2021"
publish = false

[dependencies]
calamine = "0.31"
quick-xml = "=0.31.0"
zip = { version = "=2.6.1", default-features = false, features = ["deflate"] }
serde = { version = "=1.0.229", features = ["derive"] }
serde_json = "=1.0.154"
reqwest = { version = "=0.12.28", default-features = false, features = ["json"] }
