[package]
name = "ftplace"
version = "0.1.0"
edition = "2021"
publish = false

[dependencies]
chrono = "*"
tokio = { version = "*", features = ["macros", "rt-multi-thread", "time"] }
reqwest = { version = "*", default-features = false, features = ["rustls-tls"] }
clap = { version = "*", features = ["derive"] }
anyhow = "*"
log = "*"
env_logger = "*"
image = { version = "*", default-features = false, features = ["png"] }
