[package]
name = "tvm"
version = "0.1.0"
edition = "2021"
publish = false

[dependencies]
num_cpus = "=1.17.0"
ndarray = "=0.17.2"

[dev-dependencies]
serde_json = "=1.0.151"
