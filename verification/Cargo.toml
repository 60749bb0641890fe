[package]
name = "ec_el_gamal_comparison"
version = "0.1.0"
edition = "2021"
publish = false

[dependencies]
curve25519-dalek = "=4.0.0-pre.2"
num-bigint = "0.4"
num-traits = "0.2"
glass_pumpkin = "1"
rand = "=0.8.8"
