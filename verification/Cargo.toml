[package]
name = "packet_scan"
version = "0.1.0"
edition = "2021"
publish = false

[dependencies]
bytemuck = "1"
futures = "0.3"
rayon = "1"
wgpu = "0.6"
