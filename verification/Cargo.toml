[package]
name = "vpnhotspotd"
version = "0.1.0"
edition = "2021"
publish = false

[dependencies]
cidr = "*"
etherparse = "*"
libc = "*"
nix = { version = "*", features = ["socket", "uio", "resource", "net"] }
smoltcp = "*"
socket2 = { version = "*", features = ["all"] }
tokio = { version = "*", features = ["full"] }
tokio-util = { version = "*", features = ["rt"] }
