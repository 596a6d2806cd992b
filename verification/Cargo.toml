[package]
name = "imgbuild"
version = "0.1.0"
edition = "2021"
publish = false

[dependencies]
convert_case = "=0.12.0"
serde = { version = "=1.0.229", features = ["derive"] }
toml = "=1.1.8"
serde_json = "=1.0.154"
clap = { version = "=4.6.7", features = ["derive"] }
log = "=0.4.34"
env_logger = "=0.11.11"
libc = "=0.2.191"
fuser = "=0.16.0"
libparted = "=0.1.5"
redoxfs = "=0.9.1"
bufreaderwriter = "=0.2.4"
rayon = "=1.12.0"
crossbeam = "=0.8.5"
backtrace = "=0.3.76"
