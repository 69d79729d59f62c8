[package]
name = "shadow_calculator"
version = "0.1.0"
edition = "2021"
publish = false

[dependencies]
chrono = "0.4"
dirs = "5"
gdal = "0.16"
geo = "0.28"
geo-types = "0.7"
indicatif = "0.17"
ndarray = "0.15"
num_cpus = "1"
rayon = "1"
serde = { version = "1", features = ["derive"] }
thiserror = "1"
