[package]
name = "leo_lsp_scheduler"
version = "0.1.0"
edition = "2021"
publish = false

[dependencies]
crossbeam-channel = "0.5"
lsp-types = "0.97"

[dev-dependencies]
line-index = "0.1"
