[package]
name = "velopix_tracking"
version = "0.1.0"
edition = "2021"
publish = false
