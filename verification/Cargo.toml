[package]
name = "poly_commit"
version = "0.1.0"
edition = "2021"
publish = false

[dependencies]
ark-ec = "0.3"
ark-ff = "0.3"
ark-poly = "0.3"
ark-serialize = "0.3"
ark-std = "0.3"
ark-bls12-381 = "0.3"
rand = "0.8"
