[package]
name = "overlay_sim"
version = "0.1.0"
edition = "2021"
publish = false

[dependencies]
actix = "0.13"
actix_derive = "0.6"
futures = "0.3"
nalgebra = "*"
petgraph = "0.6"
rand = "0.4"
spade = "1"
