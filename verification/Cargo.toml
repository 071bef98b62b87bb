[package]
name = "osm_bpf_to_svg"
version = "0.1.0"
edition = "2021"
publish = false

[dependencies]
anyhow = "*"
clap = { version = "*", features = ["derive"] }
env_logger = "*"
log = "*"
osmpbf = "*"
rijksdriehoek = "*"
