[package]
name = "chunk_container"
version = "0.1.0"
edition = "2021"
publish = false

[dependencies]
pdf-writer = "*"
xmp-writer = "*"
