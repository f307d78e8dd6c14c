[package]
name = "hspice_core"
version = "1.4.0"
edition = "2021"
publish = false

[dependencies]
byteorder = "1"
memmap2 = "0.9"
num-complex = "0.4"
thiserror = "1"
tracing = "0.1"
