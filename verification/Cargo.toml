[package]
name = "wolfram_expr"
version = "0.1.0"
edition = "2021"
publish = false

[dependencies]
flate2 = "1"
serde = "1"
ordered-float = "*"
