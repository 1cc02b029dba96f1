[package]
name = "hydrology"
version = "0.1.0"
edition = "2021"
publish = false

[dependencies]
bezier-rs = "=0.5.0"
glam = "=0.29.3"
