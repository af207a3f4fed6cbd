[package]
name = "gtmos_kernel"
version = "0.1.0"
edition = "2021"
publish = false

[dependencies]
font8x8 = "0.3"
spin = "0.9"
lazy_static = "1"
uart_16550 = "0.3"
x86_64 = { version = "0.15", default-features = false, features = ["instructions"] }
bootloader_api = "0.11"
volatile = "0.2"
