[package]
name = "split_indexer"
version = "0.1.0"
edition = "2021"
publish = false

[dependencies]
tantivy = "0.18"
tempfile = "3"
anyhow = "1"
tracing = "0.1"
