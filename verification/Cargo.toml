[package]
name = "socrates"
version = "0.1.0"
edition = "2021"
publish = false

[dependencies]
hashbrown = "*"
im = "*"
parking_lot = "*"
libloading = "*"
query_interface = "*"
log = "*"
env_logger = "*"
