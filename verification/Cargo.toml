[package]
name = "tdx_qgs"
version = "0.1.0"
edition = "2021"
publish = false

[dependencies]
kvm-bindings = "*"
log = "*"
