[package]
name = "jabba-shim"
version = "0.1.0"
edition = "2021"
publish = false

[dependencies]
sha2 = "=0.10.9"
hex = "=0.4.3"
clap = { version = "=4.6.7", features = ["derive"] }
serde = { version = "=1.0.229", features = ["derive"] }
reqwest = { version = "=0.12.28", default-features = false, features = ["json", "rustls-tls"] }
pistonite-cu = { version = "=0.9.8", features = ["cli", "process", "fs", "coroutine", "derive", "serde"] }
