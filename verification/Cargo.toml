[package]
name = "rswm"
version = "0.1.0"
edition = "2021"
publish = false

[dependencies]
libc = "0.2"
log = "0.4"
log4rs = "1"
mustache = "0.9"
x11 = { version = "2", features = ["xlib"] }
