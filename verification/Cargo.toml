[package]
name = "robosync"
version = "0.1.0"
edition = "2021"
publish = false

[dependencies]
anyhow = "*"
blake3 = "*"
chrono = "*"
clap = "*"
filetime = "*"
indicatif = "*"
io-uring = "*"
jwalk = "*"
libc = "*"
lz4_flex = "*"
memmap2 = "*"
num_cpus = "*"
rayon = "*"
walkdir = "*"
zstd = "*"
