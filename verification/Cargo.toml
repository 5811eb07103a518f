[package]
name = "comfy_i18n_core"
version = "0.1.0"
edition = "2021"
publish = false

[dependencies]
uuid = { version = "1", features = ["v4"] }
dfmt = "*"
itertools = "*"
proc-macro2 = "1"
quote = "1"
log = "0.4"
small_ctor = "*"
