[package]
name = "sci_calc"
version = "0.1.0"
edition = "2021"

[dependencies]
colored = "*"
rustyline = "*"
