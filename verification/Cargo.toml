[package]
name = "peanut"
version = "0.1.0"
edition = "2021"
publish = false

[dependencies]
base64 = "=0.23.1"
mio = { version = "=1.2.4", features = ["os-poll", "net"] }
ringbuf = "=0.6.0"
sha1 = "=0.11.0"
