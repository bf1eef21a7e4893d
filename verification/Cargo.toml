[package]
name = "os"
version = "0.1.0"
edition = "2021"
publish = false

[dependencies]
tinybmp = "0.3"
embedded-graphics = "0.7"
virtio-drivers = "0.1"
riscv = "0.10"
buddy_system_allocator = "0.6"
lazy_static = "1.4"
log = "0.4"
bitflags = "1.2"
