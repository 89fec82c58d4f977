[package]
name = "complot"
version = "0.1.0"
edition = "2021"
publish = false

[dependencies]
colorous = "1"
num-traits = "0.2"
plotters = "0.3"
