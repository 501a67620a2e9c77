[package]
name = "neotron_os"
version = "0.1.0"
edition = "2021"

[dependencies]
neotron-common-bios = "*"
menu = "*"

[dev-dependencies]
postcard = "*"
