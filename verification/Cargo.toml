[package]
name = "io_backends"
version = "0.1.0"
edition = "2021"
publish = false

[dependencies]
memmap2 = "*"
io-uring = "*"
log = "*"
log4rs = "*"
hostname = "*"
