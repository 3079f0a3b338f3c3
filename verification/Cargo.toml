[package]
name = "snmp_trap"
version = "0.1.0"
edition = "2021"
publish = false

[dependencies]
bit-vec = "*"
byteorder = "*"
crossbeam = "*"
