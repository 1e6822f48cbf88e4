[package]
name = "ws2812-timer-delay"
version = "0.3.0"
edition = "2021"
publish = false

[dependencies]
embedded-hal = "0.2"
nb = "0.1"
smart-leds-trait = "0.2"
