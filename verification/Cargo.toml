[package]
name = "sip"
version = "0.1.0"
edition = "2021"
publish = false

[dependencies]
clap = "2"
libloading = "0.5"
os_bootinfo = "0.2"
region = "0.3"
slog = "2"
slog-async = "2"
slog-atomic = "3"
slog-term = "2"
