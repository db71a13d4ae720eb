[package]
name = "alphanum4"
version = "0.1.0"
edition = "2021"
publish = false

[dependencies]
ascii = "1.1"
embedded-hal = "0.2"
ht16k33 = "0.4"
