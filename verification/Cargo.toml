[package]
name = "spek_core"
version = "0.1.0"
edition = "2021"
publish = false

[dependencies]
anyhow = "1"
clap = { version = "4", features = ["derive"] }
crossterm = "0.27"
directories = "5"
image = "0.24"
imageproc = "0.23"
indicatif = "0.17"
owo-colors = "4"
rayon = "1"
rustfft = "6"
rusttype = "0.9"
serde = { version = "1", features = ["derive"] }
symphonia = "0.5"
toml = "0.8"
viuer = "0.7"
