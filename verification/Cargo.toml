[package]
name = "turbostroi"
version = "0.1.0"
edition = "2021"
publish = false

[dependencies]
lazy_static = "1"
libc = "0.2"
lua-shared = "*"
winapi = { version = "0.3", features = ["winbase", "processthreadsapi", "basetsd"] }
