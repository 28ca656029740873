[package]
name = "mtb"
version = "0.1.0"
edition = "2021"
publish = false

[dependencies]
slippy-map-tiles = "*"
image = "*"
imageproc = "*"
hyper = "0.10"
rayon = "*"
docopt = "*"
xml-rs = "*"
error-chain = "*"
rusty-machine = "*"
itertools = "*"
