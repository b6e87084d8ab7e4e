[package]
name = "fe_rtos"
version = "0.1.0"
edition = "2021"
publish = false

[dependencies]
crossbeam-queue = "0.2"
cstr_core = "*"
cortex-m = "0.7"
lazy_static = "1.4"
