[package]
name = "gis"
version = "0.1.0"
edition = "2021"
publish = false

[dependencies]
blakeout = "*"
chrono = "*"
rand = "*"
serde_json = "*"
sqlite = "*"
serde = { version = "*", features = ["derive"] }
toml = "*"
getopts = "*"
log = "*"
simplelog = "*"
num_cpus = "*"
