[package]
name = "elsewhere"
version = "0.1.0"
edition = "2021"
publish = false

[dependencies]
log = "0.4"
once_cell = "1"
yew = "0.21"
