[package]
name = "udev_hid_bpf"
version = "0.1.0"
edition = "2021"
publish = false

[dependencies]
clap = { version = "*", features = ["derive"] }
libbpf-rs = "*"
libc = "*"
log = "*"
stderrlog = "*"
udev = "*"
