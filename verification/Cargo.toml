[package]
name = "sysmetrics"
version = "0.1.0"
edition = "2021"
publish = false

[dependencies]
sysinfo = "*"
systemstat = "*"
get_if_addrs = "*"
mac_address = "*"
