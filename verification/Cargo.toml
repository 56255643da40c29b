[package]
name = "bptree_store"
version = "0.1.0"
edition = "2021"
publish = false

[dependencies]
concread = "=0.5.10"
