[package]
name = "img_caster"
version = "0.1.0"
edition = "2021"
publish = false

[dependencies]
endian_codec = "*"
ipnet = "2"
byte-unit = "4"
clap = { version = "4", features = ["derive"] }
log = "0.4"
simplelog = "0.12"
socket2 = "0.5"
default-net = "*"
crossterm = "*"
