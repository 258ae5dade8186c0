[package]
name = "func_calc"
version = "0.1.0"
edition = "2021"

[dependencies]
crossterm = "*"
rustyline = "*"
