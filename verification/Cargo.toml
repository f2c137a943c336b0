[package]
name = "append_merkle"
version = "0.1.0"
edition = "2021"
publish = false

[dependencies]
tiny-keccak = { version = "2", features = ["keccak"] }
ethereum-types = "0.14"
once_cell = "1"
ethereum_ssz = "0.5"
