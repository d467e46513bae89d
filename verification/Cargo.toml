[package]
name = "window_msm"
version = "0.1.0"
edition = "2021"
publish = false

[dependencies]
rayon = "1"
num_cpus = "1"
lazy_static = "1"
log = "0.4"
groupy = "*"
fff = "*"
ocl = "*"

[dev-dependencies]
paired = "*"
