[package]
name = "fascript"
version = "0.1.0"
edition = "2021"
publish = false

[dependencies]
crossbeam = "0.8"
pest = "2"
pest_derive = "2"
tokio = { version = "1", features = ["rt-multi-thread", "macros"] }
