[package]
name = "meshvox"
version = "0.1.0"
edition = "2021"
publish = false

[dependencies]
indicatif = { version = "=0.18.6", features = ["rayon"] }
ndarray = { version = "=0.17.2", features = ["rayon"] }
nifti = "=0.18.0"
pk_stl = "=0.4.0"
