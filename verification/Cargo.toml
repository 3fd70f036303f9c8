[package]
name = "if_to_let_chain"
version = "0.1.0"
edition = "2021"
publish = false

[dependencies]
getopts = "0.2"
proc-macro2 = { version = "1", features = ["span-locations"] }
syn = { version = "1", features = ["full", "visit"] }
