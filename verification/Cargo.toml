[package]
name = "cargo_deb"
version = "3.4.0"
edition = "2021"
publish = false

[dependencies]
anstream = "0.6"
anstyle = "1"
ar = "0.9"
cargo_toml = "0.22"
clap = "4"
elf = "0.7"
env_logger = "0.11"
flate2 = "1"
glob = "0.3"
itertools = "0.14"
log = "0.4"
num_cpus = "1"
rayon = "1"
regex = "1"
serde = { version = "1", features = ["derive"] }
serde_json = "1"
tar = "0.4"
tempfile = "3"
toml = "0.8"
xz2 = "0.1"
