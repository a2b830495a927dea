[package]
name = "termproxy"
version = "0.1.0"
edition = "2021"
publish = false

[dependencies]
anyhow = "1"
clap = "4"
libc = "0.2"
mio = { version = "1", features = ["net", "os-ext", "os-poll"] }
ureq = { version = "2", default-features = false }
