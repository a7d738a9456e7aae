[package]
name = "ray_tracer"
version = "0.1.0"
edition = "2021"
publish = false

[dependencies]
image = "0.23"
rand = "0.7"
rand_distr = "0.2"
rayon = "1"
clap = "*"
num = "0.4"
