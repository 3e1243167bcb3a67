[package]
name = "ply2splat"
version = "0.1.0"
edition = "2021"
publish = false

[dependencies]
anyhow = "1"
bytemuck = { version = "1", features = ["derive"] }
clap = { version = "4", features = ["derive"] }
indicatif = "0.17"
ply-rs = "0.1.3"
rayon = "1"
