[package]
name = "led_map"
version = "0.1.0"
edition = "2021"
publish = false

[dependencies]
embedded-hal = "=0.2.7"
nb = "=1.1.0"
fugit = "=0.3.9"
smart-leds = "=0.3.0"
esp32-hal = "=0.12.0"
esp-println = { version = "0.10", features = ["esp32"] }
esp-backtrace = { version = "0.13", features = ["esp32", "panic-handler", "println"] }
esp-alloc = "0.3"
