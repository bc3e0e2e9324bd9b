[package]
name = "cower_rs"
version = "0.1.0"
edition = "2021"
publish = false

[dependencies]
url = "=2.5.8"
serde_json = "=1.0.151"
regex = "=1.13.1"
clap = "=2.34.0"
dirs = "=7.0.0"
stderrlog = "=0.6.0"
ferris-says = "=0.3.2"
