[package]
name = "shape_editor"
version = "0.1.0"
edition = "2021"
publish = false

[dependencies]
glam = { version = "=0.29.3", default-features = false, features = ["std"] }
kurbo = "=0.11.3"
rand = { version = "=0.9.5", default-features = false, features = ["std", "std_rng", "thread_rng"] }
