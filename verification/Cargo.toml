[package]
name = "halo2_circuits"
version = "0.1.0"
edition = "2021"
publish = false

[dependencies]
halo2_proofs = { version = "0.2.0", features = ["dev-graph"] }
pasta_curves = "0.4"
rand_core = { version = "0.6", features = ["getrandom"] }
plotters = "0.3"
