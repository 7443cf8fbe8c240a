[package]
name = "lxr_barrier"
version = "0.1.0"
edition = "2021"
publish = false

[dependencies]
atomic = "0.6"
