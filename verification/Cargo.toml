[package]
name = "bench"
version = "0.1.0"
edition = "2021"
publish = false

[dependencies]
crop = "=0.4.3"
jumprope = "=1.1.2"
ropey = "=1.6.1"
xi-rope = "=0.3.0"
criterion = "=0.5.1"
