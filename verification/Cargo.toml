[package]
name = "tdbtk"
version = "0.1.0"
edition = "2021"
publish = false

[dependencies]
anyhow = "=1.0.104"
iref = "=3.2.2"
lz4_flex = "0.11"
miniz_oxide = "=0.7.4"
positioned-io = "=0.3.5"
walkdir = "=2.5.0"
zstd-safe = "=7.3.0"

[dev-dependencies]
rand = "=0.8.8"
