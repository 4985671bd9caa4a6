[package]
name = "sirin"
version = "0.1.0"
edition = "2021"
publish = false

[dependencies]
cortex-m = "=0.7.10"
cortex-m-rt = "=0.7.7"
defmt = "=1.2.0"
defmt-rtt = "=1.3.1"
embassy-executor = { version = "=0.9.1", features = ["executor-thread"] }
embassy-futures = "=0.1.2"
embassy-stm32 = { version = "=0.6.0", features = ["stm32h743zi", "time-driver-any", "memory-x"] }
embassy-time = "=0.5.1"
embedded-hal = "=1.0.0"
embedded-hal-async = "=1.0.0"
nmea0183 = "=0.6.0"
panic-probe = "=1.0.0"
