[package]
name = "neorv32_hello"
version = "0.1.0"
edition = "2021"
publish = false

[dependencies]
riscv-rt = "*"
