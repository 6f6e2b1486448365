[package]
name = "spartan_indexer"
version = "0.1.0"
edition = "2021"
publish = false

[dependencies]
ark-bn254 = "*"
ark-ec = "*"
ark-ff = "*"
ark-poly = "*"
ark-poly-commit = "*"
ark-serialize = "*"
ark-std = "*"
