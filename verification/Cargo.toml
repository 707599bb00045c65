[package]
name = "shadergarden"
version = "0.1.0"
edition = "2021"
publish = false

[dependencies]
rustc_apfloat = "*"
glium = "0.31"
notify = "6"
signal-hook = "0.3"
structopt = "0.3"
image = "0.24"
