[package]
name = "lcd_i2c_rs"
version = "0.1.0"
edition = "2021"
publish = false

[dependencies]
anyhow = "=1.0.104"
esp-idf-hal = "=0.47.0"
esp-hal = { version = "=0.20.1", features = ["esp32c3"] }
esp-println = { version = "=0.12.0", features = ["esp32c3"] }
esp-backtrace = { version = "=0.14.2", features = ["esp32c3"] }
