[package]
name = "xerg"
version = "0.1.1"
edition = "2021"
publish = false

[dependencies]
regex = "*"
walkdir = "*"
clap = { version = "*", features = ["derive"] }
memmap2 = "*"
num_cpus = "*"
rayon = "*"

[dev-dependencies]
tempfile = "*"
