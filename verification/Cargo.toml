[package]
name = "alpha_innotec"
version = "0.1.0"
edition = "2021"
publish = false

[dependencies]
chrono = "0.4"
serde = { version = "1", features = ["derive"] }
serde-xml-rs = "0.4"
tokio = { version = "1", features = ["macros", "rt-multi-thread"] }
uuid = { version = "1", features = ["v4"] }
websocket = { version = "0.26", default-features = false, features = ["sync"] }

[dev-dependencies]
regex = "1"
