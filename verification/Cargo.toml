[package]
name = "vsock_exporter"
version = "0.1.0"
edition = "2021"
publish = false

[dependencies]
vsock = "*"
libc = "*"
slog = "*"
anyhow = "*"
