[package]
name = "pal"
version = "0.1.0"
edition = "2021"
publish = false

[dependencies]
lalrpop-util = { version = "=0.23.2", default-features = false }
rl-sys = "=0.5.2"
unicode-xid = "=0.2.6"
