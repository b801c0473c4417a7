[package]
name = "filterkit"
version = "0.1.0"
edition = "2021"
publish = false

[dependencies]
libm = "=0.2.16"
nalgebra = { version = "=0.35.0", default-features = false, features = ["std"] }
num-traits = "=0.2.19"
plotters = { version = "=0.3.7", default-features = false, features = ["svg_backend", "bitmap_backend", "bitmap_encoder", "line_series", "point_series"] }
