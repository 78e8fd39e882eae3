[package]
name = "m4_gdb_bridge"
version = "0.1.0"
edition = "2021"
publish = false

[dependencies]
gdb-protocol = "*"
async-std = "1"
futures = "0.3"
log = "0.4"
