[package]
name = "nl80211"
version = "0.2.0"
edition = "2021"
publish = false

[dependencies]
byteorder = "1"
macaddr = "1"
neli = "0.4"
