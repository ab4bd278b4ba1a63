[package]
name = "grs"
version = "0.1.0"
edition = "2021"
publish = false

[dependencies]
aho-corasick = "*"
colored = "*"
clap = { version = "*", features = ["derive"] }
clap_complete = "*"
itertools = "*"
similar = "*"
