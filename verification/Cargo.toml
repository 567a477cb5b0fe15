[package]
name = "cargo_docs"
version = "0.1.0"
edition = "2021"
publish = false

[dependencies]
anyhow = "*"
clap = { version = "*", features = ["derive"] }
futures-util = "*"
http = "*"
hyper = { version = "*", features = ["full"] }
hyper-staticfile = "*"
hyper-util = { version = "*", features = ["full"] }
log = "*"
opener = "*"
skim = "*"
strum = { version = "*", features = ["derive"] }
tokio = { version = "*", features = ["full"] }
