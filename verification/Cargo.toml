[package]
name = "complife"
version = "0.1.0"
edition = "2021"
publish = false

[dependencies]
rand = { version = "0.8", features = ["small_rng"] }
rayon = "1"
brotli = "*"
clap = { version = "4", features = ["derive"] }
iz80 = "*"
baryuxn = "*"
mos6502 = "*"
