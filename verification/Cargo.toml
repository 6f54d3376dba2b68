[package]
name = "crab_os"
version = "0.1.0"
edition = "2021"
publish = false

[dependencies]
conquer-once = { version = "=0.4.0", default-features = false }
crossbeam-queue = { version = "=0.3.14", default-features = false, features = ["alloc"] }
font8x8 = { version = "=0.3.1", default-features = false }
futures-util = { version = "=0.3.34", default-features = false, features = ["alloc"] }
lazy_static = "=1.5.1"
pc-keyboard = "=0.7.0"
pic8259 = { version = "=0.11.0", default-features = false, features = ["stable"] }
smoltcp = { version = "=0.14.0", default-features = false, features = ["alloc", "medium-ethernet", "proto-ipv4", "proto-dhcpv4", "proto-dns", "socket-dhcpv4", "socket-dns", "socket-tcp"] }
spin = "=0.12.3"
uefi = "=0.41.0"
x86_64 = { version = "=0.15.5", default-features = false, features = ["instructions"] }
