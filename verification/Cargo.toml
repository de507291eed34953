[package]
name = "truck-certified"
version = "0.1.0"
edition = "2021"
publish = false

[dependencies]
truck-base = "*"
truck-geometry = "*"
truck-geotrait = "*"
