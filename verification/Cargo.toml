[package]
name = "sox"
version = "0.1.0"
edition = "2021"
publish = false

[dependencies]
slotmap = "1"
log = "0.4"
env_logger = "0.11"
chrono = "0.4"
