[package]
name = "pcl_rustic_core"
version = "0.1.0"
edition = "2021"
publish = false

[dependencies]
ndarray = "*"
nalgebra = "*"
polars = { version = "*", default-features = false }
pyo3 = "*"
