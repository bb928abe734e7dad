[package]
name = "synthlang"
version = "0.1.0"
edition = "2021"
publish = false

[dependencies]
rand = "0.7"
rand_pcg = "0.2"
