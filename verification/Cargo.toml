[package]
name = "rack_panel"
version = "0.1.0"
edition = "2021"
publish = false

[dependencies]
clap = { version = "4", features = ["derive"] }
embedded-graphics = "0.8"
embedded-graphics-simulator = "0.7"
libc = "0.2"
sysinfo = "0.33"
