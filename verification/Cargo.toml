[package]
name = "onewire_thermo"
version = "0.1.0"
edition = "2021"
publish = false

[dependencies]
one-wire-bus = "=0.1.1"
ds18b20 = "=0.1.1"
embedded-hal = { version = "=0.2.7", features = ["unproven"] }
log = "0.4"
embassy-executor = "0.6"
embassy-time = "0.3"
esp-hal = { version = "0.21", features = ["esp32"] }
esp-hal-embassy = { version = "0.4", features = ["esp32"] }
esp-alloc = "0.5"
esp-backtrace = { version = "0.14", features = ["esp32", "exception-handler", "panic-handler", "println"] }
esp-println = { version = "0.12", features = ["esp32", "log"] }
esp-wifi = { version = "0.10", features = ["esp32", "wifi"] }
