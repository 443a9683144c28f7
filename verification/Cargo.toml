[package]
name = "covidcotra"
version = "0.1.0"
edition = "2021"
publish = false

[dependencies]
sodiumoxide = "*"
pbkdf2 = "*"
hmac = "*"
sha2 = "*"
uuid = { version = "*", features = ["v4"] }
chrono = "*"
serde = { version = "*", features = ["derive"] }
serde_bytes = "*"
