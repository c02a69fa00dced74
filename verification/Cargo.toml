[package]
name = "mutual_watchdog"
version = "0.1.0"
edition = "2021"
publish = false

[dependencies]
embassy-executor = "*"
embassy-net = "*"
embassy-time = "*"
embedded-io-async = "*"
embedded-tls = "*"
esp-alloc = "*"
esp-backtrace = "*"
esp-bootloader-esp-idf = "*"
esp-hal = "1.0.0"
esp-println = "*"
esp-radio = "*"
esp-rtos = "*"
rand_chacha = "*"
rand_core = "*"
rust-mqtt = "*"
static_cell = "*"
