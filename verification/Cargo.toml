[package]
name = "sn_dkg"
version = "0.1.0"
edition = "2021"
publish = false

[dependencies]
bls_dkg = "=0.9.2"
blsttc = "=3.4.0"
rand = "=0.7.3"
xor_name = "=4.1.0"
