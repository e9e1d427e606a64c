[package]
name = "m_v_r_esprint1"
version = "0.1.0"
edition = "2021"
publish = false

[dependencies]
sha2 = "=0.10.9"
hex = "=0.4.3"
quick-xml = "=0.36.2"
serde = { version = "=1.0.229", features = ["derive"] }
serde_json = "=1.0.154"
csv = "1"
anyhow = "1"
chrono = { version = "0.4", default-features = false, features = ["alloc"] }
