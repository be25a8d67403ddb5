[package]
name = "homelab"
version = "0.1.0"
edition = "2021"
publish = false

[dependencies]
embedded-graphics = "0.8"
heapless = { version = "0.8", features = ["serde"] }
reqwless = { version = "*", default-features = false }
serde = { version = "1", default-features = false, features = ["derive"] }
serde-json-core = "0.6"
embedded-hal = "1.0"
embassy-executor = "*"
embassy-net = { version = "*", features = ["dhcpv4", "dns", "medium-ethernet", "tcp", "udp"] }
embassy-time = "*"
ssd1306 = "*"
static_cell = "*"
esp-alloc = "*"
esp-backtrace = "*"
esp-bootloader-esp-idf = "*"
esp-hal = "1.1"
esp-println = "*"
esp-radio = "*"
esp-rtos = "*"
