[package]
name = "signal_pipeline"
version = "0.1.0"
edition = "2021"
publish = false

[dependencies]
itertools = "0.10"
hound = "3.4"
rustfft = "6"
rayon = "1"
uuid = { version = "0.8", features = ["v4"] }
plotters = { version = "0.3", default-features = false, features = ["bitmap_backend", "bitmap_encoder", "line_series", "point_series"] }
