[package]
name = "memreader"
version = "0.1.0"
edition = "2021"
publish = false

[dependencies]
eframe = "0.15"
proc-maps = "0.2"
sysinfo = "0.20"
