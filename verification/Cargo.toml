[package]
name = "qdl"
version = "0.1.0"
edition = "2021"
publish = false

[dependencies]
anyhow = "1"
owo-colors = "4"
sha2 = "0.10"
xmltree = { version = "0.11", features = ["attribute-order"] }
