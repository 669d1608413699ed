[package]
name = "indominus"
version = "0.1.0"
edition = "2021"
publish = false

[dependencies]
x86_64 = { version = "0.15", default-features = false, features = ["instructions"] }
spin = "0.9"
linked_list_allocator = "0.10"
log = "0.4"
uefi = { version = "0.26", features = ["alloc"] }
