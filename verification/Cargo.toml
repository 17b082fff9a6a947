[package]
name = "pngstamp"
version = "0.1.0"
edition = "2021"
publish = false

[dependencies]
crc32fast = "*"
kamadak-exif = "*"
little_exif = "*"
console_error_panic_hook = "*"
