[package]
name = "webserver"
version = "0.1.0"
edition = "2021"
publish = false

[dependencies]
regex = "1"
async-std = "1"
futures = "0.3"
