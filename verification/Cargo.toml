[package]
name = "mocap_bridge"
version = "0.1.0"
edition = "2021"
publish = false

[dependencies]
heapless = "=0.8.0"
mavlink = { version = "=0.17.1", default-features = false, features = ["std", "common", "emit-extensions"] }
nalgebra = "=0.35.0"
log = "=0.4.35"
static_cell = "*"
embassy-executor = "*"
embassy-futures = "*"
embassy-net = "*"
embassy-sync = "*"
embassy-time = "*"
embedded-io-async = "*"
embedded-storage = "*"
edge-captive = "*"
edge-dhcp = "*"
edge-nal = "*"
edge-nal-embassy = "*"
esp-alloc = "*"
esp-backtrace = "*"
esp-bootloader-esp-idf = "*"
esp-hal = "*"
esp-println = "*"
esp-radio = "*"
esp-rtos = "*"
esp-storage = "*"
