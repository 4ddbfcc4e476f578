[package]
name = "button_debounce"
version = "0.1.0"
edition = "2021"
publish = false

[dependencies]
cortex-m = { version = "0.7", features = ["critical-section-single-core"] }
cortex-m-rtic = "1.1"
embedded-hal = "1.0"
fugit = "0.3"
nrf52833-hal = "*"
rtt-target = "*"
