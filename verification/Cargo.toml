[package]
name = "indexical"
version = "0.1.0"
edition = "2021"
publish = false

[dependencies]
bitvec = "=1.1.1"
fxhash = "=0.2.1"
splitmut = "=0.2.1"
take_mut = "=0.2.2"
ra-ap-rustc_index = { version = "=0.178.0", default-features = false }
