[package]
name = "ipm"
version = "0.1.0"
edition = "2021"
publish = false

[dependencies]
flate2 = "1"
termimad = "*"
regex = "1"
serde = { version = "1", features = ["derive"] }
serde_json = "1"
chrono = "0.4"
reqwest = { version = "0.12", default-features = false, features = ["blocking", "rustls-tls"] }
tar = "0.4"
zip = { version = "*", default-features = false, features = ["deflate"] }
nix = { version = "*", features = ["user"] }
