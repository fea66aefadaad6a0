[package]
name = "termproxy"
version = "0.1.0"
edition = "2021"
publish = false

[dependencies]
anyhow = "=1.0.104"
libc = "=0.2.191"
mio = { version = "=1.0.4", features = ["os-poll", "net", "os-ext"] }
nix = { version = "=0.29.0", features = ["fs", "term", "ioctl", "process"] }
pico-args = "=0.5.0"
ureq = { version = "=2.12.1", default-features = false }
