[package]
name = "ann_rust"
version = "0.1.0"
edition = "2021"
publish = false

[dependencies]
rayon = "*"
rand = "*"
rand_distr = "*"
savefile = "*"
savefile-derive = "*"
