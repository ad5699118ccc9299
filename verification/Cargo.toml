[package]
name = "distilbert_qa"
version = "0.1.0"
edition = "2021"
publish = false

[dependencies]
tch = "0.1"
