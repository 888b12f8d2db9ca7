[package]
name = "mmq"
version = "0.1.0"
edition = "2021"
publish = false

[dependencies]
anyhow = "=1.0.104"
clap = { version = "=4.6.7", features = ["cargo"] }
color-print = "=0.3.7"
env_logger = "=0.11.11"
log = "=0.4.35"
maxminddb = "=0.27.3"
rayon = "=1.12.0"
