[package]
name = "flash_console"
version = "0.1.0"
edition = "2021"
publish = false

[dependencies]
rp-pico = "0.8"
cortex-m = "0.7"
cortex-m-rt = "0.7"
usb-device = "0.2"
usbd-serial = "0.1"
