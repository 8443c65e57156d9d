[package]
name = "csv_to_mtx"
version = "0.1.0"
edition = "2021"
publish = false

[dependencies]
bytemuck = "*"
csv = "*"
flate2 = "*"
rayon = "*"
