[package]
name = "toi_server"
version = "0.1.0"
edition = "2021"
publish = false

[dependencies]
mio = { version = "*", features = ["net", "os-poll"] }
rustyline = "*"
rustyline-derive = "*"
clap = { version = "*", features = ["derive"] }
clap_complete = "*"
directories = "*"
path-absolutize = "*"
sysinfo = "*"
