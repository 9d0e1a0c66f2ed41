[package]
name = "peer_conn"
version = "0.1.0"
edition = "2021"
publish = false

[dependencies]
chashmap = "*"
vecio = "*"
byteorder = "*"
