[package]
name = "dns_reflector"
version = "0.1.0"
edition = "2021"
publish = false

[dependencies]
simple-dns = "=0.4.7"
pnet = "=0.31.0"
packet-builder = "=0.7.0"
dashmap = "=5.5.3"
tokio = { version = "=1.54.1", features = ["full"] }
tokio-fd = "=0.3.0"
tracing = "=0.1.44"
tracing-subscriber = "=0.3.23"
libc = "=0.2.191"
redbpf = { version = "*", features = ["load"] }
