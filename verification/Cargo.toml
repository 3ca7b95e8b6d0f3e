[package]
name = "chunk_store"
version = "0.1.0"
edition = "2021"
publish = false

[dependencies]
sgdata = "*"
two-lock-queue = "*"
