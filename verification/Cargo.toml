[package]
name = "async_executor"
version = "0.1.0"
edition = "2021"
publish = false

[dependencies]
async-task = "*"
cache-padded = "*"
fastrand = "*"
futures-lite = "*"
once_cell = "*"
parking_lot = "*"
slab = "*"
