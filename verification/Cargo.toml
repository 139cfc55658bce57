[package]
name = "posy"
version = "0.1.0"
edition = "2021"
publish = false

[dependencies]
elsa = "1"
eyre = "0.6"
pubgrub = "0.2"
stable_deref_trait = "1"
