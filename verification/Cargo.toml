[package]
name = "lidar_faselase"
version = "0.1.0"
edition = "2021"
publish = false

[dependencies]
lidar = "0.1.0"
nalgebra = "0.32"
