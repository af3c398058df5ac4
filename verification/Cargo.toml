[package]
name = "eye_detection"
version = "0.1.0"
edition = "2021"
publish = false

[dependencies]
image = { version = "=0.25.10", default-features = false, features = ["jpeg"] }
piston_window = "=0.148.0"
fps_counter = "=3.0.0"
find_folder = "=0.3.0"
