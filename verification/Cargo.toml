[package]
name = "nx_layout_toolbox"
version = "0.1.0"
edition = "2021"
publish = false

[dependencies]
lz4_flex = "*"
ruzstd = "*"
clap = { version = "*", features = ["derive"] }
anyhow = "*"
walkdir = "*"
serde_json = "*"
thiserror = "*"
byteorder = "*"
