[package]
name = "httpd"
version = "0.1.0"
edition = "2021"
publish = false

[dependencies]
chrono = { version = "0.4", default-features = false, features = ["std", "clock"] }
mio = { version = "0.8", features = ["os-poll", "net", "os-ext"] }
