[package]
name = "province_definition"
version = "0.1.0"
edition = "2021"
publish = false

[dependencies]
chrono = "0.4"
color-backtrace = "*"
dunce = "1"
piston = "*"
pistoncore-glutin_window = "*"
piston2d-opengl_graphics = "*"
serde = { version = "1", features = ["derive"] }
termcolor = "1"
