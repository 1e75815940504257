[package]
name = "photomosaic"
version = "0.1.0"
edition = "2021"
publish = false

[dependencies]
clap = { version = "*", features = ["derive"] }
glob = "*"
image = { version = "*", default-features = false, features = ["jpeg", "png"] }
oklab = "*"
tokio = { version = "*", features = ["rt", "rt-multi-thread", "macros"] }
