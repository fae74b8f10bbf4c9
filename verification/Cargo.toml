[package]
name = "ozone"
version = "0.1.0"
edition = "2021"
publish = false

[dependencies]
lazysimd = "=0.1.0"
sha2 = "0.10.9"
log = "0.4.35"
multi_log = "0.1.2"
thiserror = "1.0.69"
skyline = "*"
