[package]
name = "voxmesh"
version = "0.1.0"
edition = "2021"
publish = false

[dependencies]
clap = { version = "*", features = ["derive"] }
dot_vox = "*"
image = { version = "*", default-features = false, features = ["png"] }
thiserror = "*"
