[package]
name = "hssp"
version = "0.1.0"
edition = "2021"
publish = false

[dependencies]
acr = "=0.4.3"
chrono = "=0.4.45"
dh = "=0.8.1"
