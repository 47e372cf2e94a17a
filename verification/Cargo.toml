[package]
name = "linttex"
version = "0.1.0"
edition = "2021"

[dependencies]
console = "0.15"
structopt = "0.3"
thiserror = "1"
