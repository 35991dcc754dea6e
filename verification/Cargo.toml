[package]
name = "raytracer"
version = "0.1.0"
edition = "2021"
publish = false

[dependencies]
rand = "0.8"
image = { version = "0.23", default-features = false, features = ["jpeg", "png"] }
libm = "0.2"
num = "0.4"
