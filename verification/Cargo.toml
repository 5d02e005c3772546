[package]
name = "ble_repl"
version = "0.1.0"
edition = "2021"
publish = false

[dependencies]
shlex = "=1.3.0"
clap = "=3.2.25"
btleplug = "=0.11.8"
libdbus-sys = { version = "=0.2.7", features = ["vendored"] }
tokio = { version = "=1.54.1", features = ["full"] }
futures = "=0.3.34"
async-trait = "=0.1.92"
rustyline = "=10.1.1"
exitcode = "=1.1.2"
daemonize = "=0.5.0"
dirs = "=5.0.1"
