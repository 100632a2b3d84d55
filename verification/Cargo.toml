[package]
name = "noirc_types"
version = "0.1.0"
edition = "2021"
publish = false

[dependencies]
acvm = "0.2"
num-bigint = "0.4"
num-traits = "0.2"
