[package]
name = "reposync"
version = "0.1.0"
edition = "2021"
publish = false

[dependencies]
git2 = "*"
anyhow = "1"
directories = "*"
indicatif = "*"
prettytable-rs = "*"
serde = { version = "1", features = ["derive"] }
structopt = "0.3"
threadpool = "1"
toml = "*"
