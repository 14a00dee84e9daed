[package]
name = "swarm"
version = "0.1.0"
edition = "2021"
publish = false

[dependencies]
slotmap = "1"
macroquad = "0.4"
miniquad = "0.4"
