[package]
name = "snowc"
version = "0.1.0"
edition = "2021"
publish = false

[dependencies]
prettify-js = "*"
clap = "*"
crossterm = "*"
anyhow = "*"
rquickjs = "*"
