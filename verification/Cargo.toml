[package]
name = "keiro"
version = "0.1.0"
edition = "2021"
publish = false

[dependencies]
hyper = "0.14"
futures-util = "0.3"
route-recognizer = "0.3"
