[package]
name = "netifaces"
version = "0.1.0"
edition = "2021"
publish = false

[dependencies]
nix = { version = "=0.31.3", features = ["net", "socket"] }
libc = "=0.2.191"
pyo3 = { version = "=0.20.3", features = ["extension-module"] }
windows = { version = "0.48", features = ["Win32_Foundation", "Win32_NetworkManagement_IpHelper", "Win32_NetworkManagement_Ndis", "Win32_Networking_WinSock"] }
get_adapters_addresses = "=0.1.1"
