[package]
name = "devp2p"
version = "0.1.0"
edition = "2021"
publish = false

[dependencies]
etcommon-rlp = "=0.2.5"
etcommon-bigint = "=0.2.10"
etcommon-block = "=0.5.2"
dpt = "=0.2.6"
rlpx = "=0.2.6"
secp256k1-plus = "=0.5.7"
futures = "=0.1.31"
tokio-core = "=0.1.18"
