[package]
name = "hopter"
version = "0.1.0"
edition = "2021"
publish = false

[dependencies]
hadusos = "*"
heapless = "0.8"
stm32f4xx-hal = { version = "*", features = ["stm32f407"] }
