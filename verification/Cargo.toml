[package]
name = "arg_picker"
version = "0.4.0"
edition = "2021"
publish = false

[dependencies]
just_fmt = "*"
