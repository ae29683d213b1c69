[package]
name = "solar_raster"
version = "0.1.0"
edition = "2021"
publish = false

[dependencies]
fastnoise-lite = "=1.1.1"
nalgebra-glm = "=0.21.0"
minifb = { version = "=0.29.0", default-features = false, features = ["x11"] }
