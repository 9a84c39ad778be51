[package]
name = "dagon_lib"
version = "0.1.0"
edition = "2021"
publish = false

[dependencies]
anyhow = "1"
sequoia-openpgp = { version = "1", default-features = false, features = ["crypto-rust", "allow-experimental-crypto", "allow-variable-time-crypto"] }
sled = "0.34"
lazy_static = "1"
backtrace = "0.3"
chrono = "0.4"
