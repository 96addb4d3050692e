[package]
name = "apixels"
version = "0.1.0"
edition = "2021"
publish = false

[dependencies]
anyhow = "1"
clap = { version = "4", features = ["derive"] }
color_space = "*"
color-thief = "*"
image = "0.24"
owo-colors = "3"
rayon = "1"
tokio = { version = "1", features = ["macros", "rt-multi-thread"] }
