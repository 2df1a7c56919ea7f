[package]
name = "taiwan_eq_map"
version = "0.1.0"
edition = "2021"
publish = false

[dependencies]
chrono = "*"
dotenv = "*"
dotenv_codegen = "*"
egg-mode = { version = "*", default-features = false, features = ["rustls"] }
image = "*"
log = "*"
reqwest = { version = "*", default-features = false, features = ["json", "rustls-tls"] }
serde = { version = "*", features = ["derive"] }
sled = "*"
tokio = { version = "*", features = ["macros", "rt-multi-thread", "time"] }
