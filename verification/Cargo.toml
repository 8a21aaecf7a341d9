[package]
name = "qfetch"
version = "0.2.3"
edition = "2021"
publish = false

[dependencies]
console = "=0.16.6"
humansize = "=2.1.3"
nix = { version = "=0.31.3", features = ["fs", "feature"] }
gethostname = "=1.1.0"
getgpuname = "=0.1.8"
raw-cpuid = "=11.6.0"
terminal_size = "=0.4.4"
serde = { version = "=1.0.229", features = ["derive"] }
serde_yaml = "=0.9.34"
unicode-ident = "=1.0.27"
