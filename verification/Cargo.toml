[package]
name = "v8_derive"
version = "0.1.0"
edition = "2021"
publish = false

[dependencies]
v8 = "*"
serde_json = "1"
thiserror = "1"
syn = "2"
quote = "1"
proc-macro2 = "1"
