[package]
name = "vmm_devices"
version = "0.1.0"
edition = "2021"
publish = false

[dependencies]
vm-memory = { version = "*", features = ["backend-mmap"] }
vm-superio = "*"
vmm-sys-util = "*"
getrandom = "*"
libc = "0.2"
log = "0.4"
serde = { version = "1", features = ["derive"] }
thiserror = "*"

[dev-dependencies]
tempfile = "3"
