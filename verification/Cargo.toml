[package]
name = "buckpkgs_store"
version = "0.1.0"
edition = "2021"
publish = false

[dependencies]
serde_json = "=1.0.154"
sha2 = "=0.10.9"
fs4 = "=0.13.1"
libc = "=0.2.191"
tokio = { version = "=1.54.1", features = ["rt"] }
starlark = "=0.14.2"
allocative = "=0.3.6"
