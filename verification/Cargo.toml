[package]
name = "execute_in_dirs"
version = "0.1.0"
edition = "2021"
publish = false

[dependencies]
os_pipe = "*"
std-semaphore = "*"
structopt = "*"
