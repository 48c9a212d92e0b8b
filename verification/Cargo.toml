[package]
name = "sadhana_frontend"
version = "0.1.0"
edition = "2021"
publish = false

[dependencies]
chrono = "0.4"
csv = "1"
urlencoding = "2"
serde = { version = "1", features = ["derive"] }
wasm-bindgen = "0.2"
web-sys = { version = "0.3", features = ["Window", "Document", "HtmlDocument", "Storage"] }
reqwest = { version = "0.12", default-features = false, features = ["json"] }
