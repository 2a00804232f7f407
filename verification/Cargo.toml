[package]
name = "hex_instance"
version = "0.1.0"
edition = "2021"
publish = false

[dependencies]
vulkano = "=0.34.2"
vulkano-shaders = "=0.34.0"
