[package]
name = "lsm_core"
version = "0.1.0"
edition = "2021"
publish = false

[dependencies]
crc = "=1.8.1"
lru = { version = "=0.7.8", default-features = false }
std-semaphore = "=0.1.0"
