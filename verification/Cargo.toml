[package]
name = "fix_message"
version = "0.1.0"
edition = "2021"

[dependencies]
fix_checksum = "*"
