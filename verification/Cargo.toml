[package]
name = "analyze_stats"
version = "0.1.0"
edition = "2021"
publish = false

[dependencies]
mur3 = "=0.1.0"
rand = "=0.7.3"
async-trait = "0.1"
