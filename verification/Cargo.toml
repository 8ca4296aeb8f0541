[package]
name = "paged_alloc"
version = "0.3.0"
edition = "2021"

[dependencies]
libc = "0.2"
