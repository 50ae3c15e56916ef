[package]
name = "vhost-user-sound"
version = "0.1.0"
edition = "2021"
publish = false

[dependencies]
log = "0.4"
pipewire = "0.7"
thiserror = "1"
vhost = "0.8"
vhost-user-backend = "0.10"
virtio-queue = "0.9"
vm-memory = { version = "0.12", features = ["backend-mmap", "backend-atomic"] }
