[package]
name = "pngscan"
version = "0.1.0"
edition = "2021"
publish = false

[dependencies]
clap = { version = "4", features = ["derive"] }
clio = { version = "0.3", features = ["clap-parse"] }
