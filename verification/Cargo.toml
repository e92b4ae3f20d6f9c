[package]
name = "rbc_solver"
version = "0.1.0"
edition = "2021"
publish = false

[dependencies]
num_cpus = "*"
scoped_threadpool = "*"
