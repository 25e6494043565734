[package]
name = "rustypac"
version = "0.1.0"
edition = "2021"
publish = false

[dependencies]
bytehaul = "=0.2.0"
libc = "0.2"
terminal_size = "*"
tokio = { version = "1", features = ["macros", "rt-multi-thread", "signal", "sync", "time"] }
unicode-width = "0.2"
