[package]
name = "veos"
version = "0.1.0"
edition = "2021"
publish = false

[dependencies]
byteorder = "1"
log = "0.4"
raw-cpuid = "*"
volatile = "*"
x86_64 = { version = "*", default-features = false, features = ["instructions"] }
