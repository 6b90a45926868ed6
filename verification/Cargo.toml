[package]
name = "vexide-panic"
version = "0.1.0"
edition = "2021"
publish = false

[dependencies]
vex-libunwind = "=0.1.0"
vex-libunwind-sys = "=0.1.0"
