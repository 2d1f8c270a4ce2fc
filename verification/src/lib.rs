//! Verified core of the JetKVM DC Power Extension firmware.

pub mod config;
pub mod flash_store;
pub mod fw_update;
pub mod panic_handler;
pub mod uart_handler;
pub mod direct_flash;
pub mod sensor;
pub mod control;
pub mod text;
