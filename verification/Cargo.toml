[package]
name = "audio_io"
version = "0.1.0"
edition = "2021"
publish = false

[dependencies]
hound = "*"
cpal = "*"
midir = "*"
log = "*"
env_logger = "*"
anyhow = "*"
