[package]
name = "installer"
version = "0.1.0"
edition = "2021"
publish = false

[dependencies]
flate2 = "=1.1.10"
xz2 = "=0.1.7"
zstd = { version = "=0.14.0", features = ["zstdmt"] }
num_cpus = "=1.17.0"
rayon = "=1.12.0"
walkdir = "=2.5.0"

[dev-dependencies]
tar = "=0.4.46"
