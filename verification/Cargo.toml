[package]
name = "esp-s3-hal"
version = "0.1.0"
edition = "2021"
publish = false

[dependencies]
heapless = "*"
trouble-host = "0.6"
libm = "*"
miniserde = "*"
nb = "*"
embassy-sync = "*"
embassy-time = "*"
embassy-futures = "*"
embassy-executor = "*"
embassy-net = "*"
picoserve = "*"
esp-hal = "*"
esp-radio = "*"
esp32s3 = "*"
esp-println = "*"
esp-hal-dhcp-server = "*"
ws2812-rmt = "0.2"
