[package]
name = "toy_http"
version = "0.1.0"
edition = "2021"
publish = false

[dependencies]
futures = "*"
socket2 = "*"
threadpool = "*"
