[package]
name = "jetkvm_dc_extension"
version = "0.2.0"
edition = "2021"
publish = false

[dependencies]
cortex-m = { version = "=0.7.10", features = ["critical-section-single-core"] }
cortex-m-rt = "=0.7.7"
defmt = "=1.2.0"
defmt-rtt = "=1.3.1"
embassy-boot-rp = "=0.10.0"
embassy-executor = { version = "=0.9.1", features = ["arch-cortex-m", "executor-thread"] }
embassy-futures = "=0.1.2"
embassy-rp = { version = "=0.10.0", features = ["rp2040", "time-driver", "critical-section-impl"] }
embassy-sync = "=0.8.0"
embassy-time = "=0.5.1"
embedded-alloc = "*"
embedded-hal-async = "=1.0.0"
embedded-io-async = "=0.7.0"
embedded-storage = "=0.3.2"
heapless = "=0.9.3"
ina219 = { version = "=0.2.1", features = ["async"] }
panic-probe = "=1.0.0"
static_cell = "=2.1.1"
