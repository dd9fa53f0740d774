[package]
name = "posix_flock"
version = "0.1.0"
edition = "2021"
publish = false

[dependencies]
data-encoding = "2.3"
elf = "0.0.10"
regex = "1"
sha2 = "0.9"
shellexpand = "2.1"
