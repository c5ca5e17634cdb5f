[package]
name = "sgx_tstd"
version = "0.1.0"
edition = "2021"
publish = false

[dependencies]
sgx_types = "*"
