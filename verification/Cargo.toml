[package]
name = "async-executor"
version = "0.2.0"
edition = "2021"
publish = false

[dependencies]
async-task = "3.0.0"
concurrent-queue = "1.2.2"
fastrand = "1.3.5"
futures-lite = "1.0.0"
once_cell = "1.4.1"
