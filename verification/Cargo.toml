[package]
name = "rum"
version = "0.1.0"
edition = "2021"
publish = false

[dependencies]
rustix = { version = "1", features = ["fs"] }
rayon = "1"
clap = { version = "4", features = ["derive"] }
