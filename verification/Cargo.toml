[package]
name = "raytracing"
version = "0.1.0"
edition = "2021"
publish = false

[dependencies]
anyhow = "=1.0.104"
minifb = { version = "=0.16.0", default-features = false, features = ["x11"] }
once_cell = "=1.21.4"
rand = { version = "=0.7.3", features = ["small_rng"] }
rand_distr = "=0.2.2"
rayon = "=1.12.0"
structopt = "=0.3.26"
