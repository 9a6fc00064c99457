[package]
name = "gm82save"
version = "0.1.0"
edition = "2021"
publish = false

[dependencies]
flate2 = "*"
png = "*"
regex = "*"
crossbeam-channel = "*"
sysinfo = "*"
