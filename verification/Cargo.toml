[package]
name = "zoog"
version = "0.1.0"
edition = "2021"
publish = false

[dependencies]
audiopus = "*"
bs1770 = "*"
clap = { version = "*", features = ["derive"] }
num_cpus = "*"
ogg = "*"
parking_lot = "*"
rayon = "*"
thiserror = "*"
wild = "*"
