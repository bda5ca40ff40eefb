[package]
name = "local_executor"
version = "0.1.0"
edition = "2021"
publish = false

[dependencies]
futures = "0.3"
pin-utils = "0.1"
scoped-tls = "1"
waker-fn = "1"
