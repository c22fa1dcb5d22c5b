[package]
name = "wsv"
version = "0.1.0"
edition = "2021"
publish = false

[dependencies]
itertools = "=0.14.0"
comfy-table = "=7.1.4"
unicode-bom = "=2.0.3"
thiserror = "=2.0.21"
regex = "1"
