[package]
name = "pfrust"
version = "0.1.0"
edition = "2021"
publish = false

[dependencies]
rand = "0.8"
rand_distr = "0.4"
ndarray = "0.15"
ndarray-linalg = "0.16"
gnuplot = "*"
