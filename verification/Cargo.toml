[package]
name = "voxeled"
version = "0.1.0"
edition = "2021"
publish = false

[dependencies]
rand = "0.8"
serde_json = "1"
glam = "*"
noise = "0.9"
crossbeam = "0.8"
num_cpus = "1"
