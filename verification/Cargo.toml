[package]
name = "asn1_viewer"
version = "0.1.0"
edition = "2021"
publish = false

[dependencies]
der = { version = "0.7", features = ["alloc", "oid", "std"] }
base64 = "0.22"
hex = "0.4"
clap = { version = "4", features = ["derive"] }
tui = "0.19"
crossterm = "0.25"
clipboard = "*"
log = "0.4"
log2 = "*"
