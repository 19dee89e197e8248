[package]
name = "parsync"
version = "0.1.0"
edition = "2021"
publish = false

[dependencies]
adler = "*"
blake3 = "*"
regex = "*"
walkdir = "*"
crossbeam-channel = "*"
indicatif = "*"
log = "*"
env_logger = "*"
num_cpus = "*"
rayon = "*"
clap = { version = "*", features = ["derive"] }
ssh2 = "*"
