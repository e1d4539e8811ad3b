[package]
name = "kindle_dict"
version = "0.1.0"
edition = "2021"
publish = false

[dependencies]
regex = "1"
quick-xml = "0.37"
bzip2 = "*"
