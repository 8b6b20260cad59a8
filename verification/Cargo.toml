[package]
name = "i2c_slave"
version = "0.1.0"
edition = "2021"
publish = false

[dependencies]
critical-section = "1"
embassy-embedded-hal = "*"
embassy-sync = "*"
embedded-hal = "1"
enumset = "1"
esp32c6 = "0.21"
portable-atomic = "1"
