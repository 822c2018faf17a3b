[package]
name = "gudot"
version = "0.1.0"
edition = "2021"
publish = false

[dependencies]
gmorph = "*"
serde = { version = "1", features = ["derive"] }
serde_json = "1"
structopt = "*"
rand = "*"
rand_distr = "*"
plotters = "*"
failure = "*"
