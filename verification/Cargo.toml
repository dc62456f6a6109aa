[package]
name = "slicenii"
version = "0.1.0"
edition = "2021"
publish = false

[dependencies]
ndarray = "*"
nifti = { version = "*", features = ["ndarray_volumes", "nalgebra_affine"] }
nalgebra = "*"
clap = { version = "4", features = ["derive"] }
glob = "*"
