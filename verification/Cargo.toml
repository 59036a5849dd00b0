[package]
name = "reburn"
version = "0.1.0"
edition = "2021"
publish = false

[dependencies]
clap = { version = "*", features = ["derive"] }
notify = "*"
winapi = { version = "*", features = ["ntdef", "tlhelp32", "processthreadsapi", "handleapi", "winnt"] }
