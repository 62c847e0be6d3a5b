[package]
name = "org_render"
version = "0.1.0"
edition = "2021"
publish = false

[dependencies]
orgize = "0.10.0-alpha.10"
slugify = "0.1.0"
