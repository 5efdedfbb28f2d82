[package]
name = "sharun"
version = "0.1.0"
edition = "2021"
publish = false

[dependencies]
shellexpand = "3"
userland-execve = "*"
walkdir = "2"
which = "*"
