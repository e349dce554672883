[package]
name = "small_recorder"
version = "0.1.0"
edition = "2021"
publish = false

[dependencies]
clap = "=4.6.7"
image = "=0.25.10"
reqwest = { version = "=0.13.5", default-features = false, features = ["blocking", "query"] }
rscam = "=0.5.5"
