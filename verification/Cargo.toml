[package]
name = "ruda"
version = "0.1.0"
edition = "2021"
publish = false

[dependencies]
snailquote = "0.3"
sha2 = "0.10"
clap = { version = "4", features = ["derive"] }
serde = { version = "1", features = ["derive"] }
toml = "*"
serde_either = "*"
git2 = "*"
git-url-parse = "0.4"
libloading = "0.8"
iced = { version = "0.10", default-features = false }
