[package]
name = "clocked"
version = "0.1.0"
edition = "2021"
publish = false

[dependencies]
rtrb = "0.3"
nalgebra = "0.33"
smallvec = "1"
dasp_sample = "0.11"
cpal = "0.15"
midir = "0.10"
