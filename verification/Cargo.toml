[package]
name = "ilmenite"
version = "0.1.0"
edition = "2021"
publish = false

[dependencies]
allsorts = "=0.6.0"
ash = "0.37"
bytemuck = "1"
crossbeam = "=0.8.5"
parking_lot = "=0.13.0"
vulkano = "0.32"
vulkano-shaders = "0.32"
