[package]
name = "competency_rating"
version = "0.1.0"
edition = "2021"
publish = false

[dependencies]
worker = "*"
wee_alloc = "*"
