[package]
name = "dice_expr"
version = "0.1.0"
edition = "2021"
publish = false

[dependencies]
rand = "0.8"
csv = "1"
chrono = "0.4"
