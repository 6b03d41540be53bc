[package]
name = "tidos"
version = "0.1.0"
edition = "2021"
publish = false

[dependencies]
proc-macro2 = "*"
quote = "*"
syn = { version = "*", features = ["full"] }
uuid = { version = "*", features = ["v4"] }
figment = { version = "*", features = ["toml", "env"] }
serde = { version = "*", features = ["derive"] }
unic-langid = "*"
