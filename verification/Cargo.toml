[package]
name = "vtk_codec"
version = "0.1.0"
edition = "2021"
publish = false

[dependencies]
quick-xml = "0.22"
ansi_term = "0.12"
clap = "2"
