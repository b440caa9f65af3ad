[package]
name = "sticky_notes"
version = "0.1.0"
edition = "2021"
publish = false

[dependencies]
chrono = "0.4"
uuid = { version = "1", features = ["v4"] }
pulldown-cmark = "0.13"

[dev-dependencies]
tempfile = "3"
