[package]
name = "fishnet"
version = "0.1.0"
edition = "2021"
publish = false

[dependencies]
libc = "=0.2.191"
num_cpus = "=1.17.0"
reqwest = { version = "=0.12.28", default-features = false, features = ["http2", "rustls-tls-manual-roots-no-provider"] }
rustls = { version = "=0.23.46", default-features = false, features = ["ring", "std", "tls12"] }
shakmaty = "=0.29.4"
shell-escape = "=0.1.5"
sysinfo = "=0.37.2"
tokio = { version = "=1.54.1", features = ["io-util", "macros", "process", "rt", "signal", "sync", "time"] }
webpki-roots = "=1.0.10"
windows = { version = "=0.62.2", features = ["Win32_System_Threading"] }
