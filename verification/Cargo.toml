[package]
name = "vhost_blk_conformance"
version = "0.1.0"
edition = "2021"
publish = false

[dependencies]
libc = "0.2"
vhost = { version = "0.17", features = ["vhost-user-frontend"] }
vmm-sys-util = "0.15"
