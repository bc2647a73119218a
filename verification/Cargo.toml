[package]
name = "mesos"
version = "0.1.0"
edition = "2021"
publish = false

[dependencies]
hyper = "0.10"
protobuf = "2"
rand = "0.8"
