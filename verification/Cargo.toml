[package]
name = "mini_greeter"
version = "0.1.0"
edition = "2021"
publish = false

[dependencies]
greetd_ipc = { version = "0.10", features = ["sync-codec"] }
libc = "0.2"
shell-words = "1"
