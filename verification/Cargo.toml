[package]
name = "socha_client_2020"
version = "0.1.0"
edition = "2021"
publish = false

[dependencies]
arrayvec = "0.7"
itertools = "0.12"
getopts = "0.2"
rand = "0.8"
xml-rs = "0.8"
