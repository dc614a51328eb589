[package]
name = "mio-uds"
version = "0.6.7"
edition = "2021"
publish = false

[dependencies]
byteorder = "1"
iovec = "0.1"
libc = "0.2"
mio = "0.6"
