[package]
name = "piano_monitor"
version = "0.1.0"
edition = "2021"
publish = false

[dependencies]
anyhow = "*"
cpal = "*"
env_logger = "*"
jack = "*"
log = "*"
midir = "*"
num-traits = "*"
oxisynth = "*"
