[package]
name = "theseus"
version = "0.1.0"
edition = "2021"
publish = false

[dependencies]
async_zip = { version = "=0.0.13", default-features = false, features = ["tokio", "deflate"] }
bytes = "=1.12.1"
chrono = "=0.4.45"
daedalus = "=0.2.3"
futures = "=0.3.34"
serde = { version = "=1.0.229", features = ["derive"] }
serde_json = "=1.0.154"
tokio = { version = "=1.54.1", features = ["full"] }
uuid = { version = "=1.29.0", features = ["v4"] }
whoami = "=1.6.1"

[dev-dependencies]
regex = "1"
