[package]
name = "query_refs"
version = "0.1.0"
edition = "2021"
publish = false

[dependencies]
lsp-types = "*"
