[package]
name = "rlp_circuits"
version = "0.1.0"
edition = "2021"
publish = false

[dependencies]
alloy-dyn-abi = "0.4"
ethers-core = { version = "2.0", default-features = false }
halo2_proofs = "0.3"
halo2curves = "*"
rlp = "0.5"

[dev-dependencies]
hex = "0.4"
