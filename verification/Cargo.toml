[package]
name = "pdmx"
version = "0.1.0"
edition = "2021"
publish = false

[dependencies]
heapless = "0.8"
serde = { version = "1", default-features = false, features = ["derive"] }
serde-json-core = "*"
embassy-time = "*"
embassy-net = { version = "*", features = ["proto-ipv4", "tcp", "udp", "medium-ethernet", "multicast"] }
embassy-sync = "*"
embassy-executor = "*"
embassy-futures = "*"
embassy-rp = "*"
embassy-net-wiznet = "*"
embedded-graphics = "*"
ssd1306 = "*"
smart-leds = "*"
static_cell = "*"
embedded-sdmmc = "*"
nanomp3 = "*"
embedded-hal = "1"
embedded-hal-async = "1"
embedded-hal-bus = "*"
assign-resources = "*"
