[package]
name = "menu"
version = "0.1.0"
edition = "2021"
publish = false

[dependencies]
embedded-io = "=0.6.1"
noline = "=0.5.1"
