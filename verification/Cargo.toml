[package]
name = "embedrs"
version = "0.1.0"
edition = "2021"
publish = false

[dependencies]
embassy-sync = "*"
embassy-stm32 = { version = "*", features = ["stm32f401rc", "time-driver-any"] }
embassy-executor = "*"
embassy-time = "*"
defmt = "*"
defmt-rtt = "*"
panic-probe = "*"
cortex-m = "*"
cortex-m-rt = "*"
pid = "*"
static_cell = "*"

[dev-dependencies]
critical-section = { version = "*", features = ["std"] }
