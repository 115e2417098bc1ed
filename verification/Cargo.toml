[package]
name = "youtube_manager"
version = "0.1.0"
edition = "2021"
publish = false

[dependencies]
chrono = "0.4"
google-youtube3 = "*"
hyper = "*"
async-trait = "*"
