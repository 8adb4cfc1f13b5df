[package]
name = "kernel"
version = "0.1.0"
edition = "2021"
publish = false

[dependencies]
unicode-segmentation = "=1.13.3"
embedded-graphics = "=0.8.2"
log = "=0.4.35"
limine = "=0.5.0"
uart_16550 = "=0.3.2"
x86_64 = { version = "=0.14.13", default-features = false, features = ["instructions"] }
spin = "=0.9.9"
owo-colors = "=4.4.0"
dotenvy = "=0.15.7"
