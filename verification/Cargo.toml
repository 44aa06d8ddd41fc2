[package]
name = "servers"
version = "0.1.0"
edition = "2021"
publish = false

[dependencies]
epoll = "4"
