[package]
name = "sbt_filter"
version = "0.1.0"
edition = "2021"
publish = false

[dependencies]
regex = "1"
anyhow = "1"
lazy_static = "1"
