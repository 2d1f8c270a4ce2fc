//! Configuration constants for the JetKVM DC Power Extension.

use vstd::prelude::*;

verus! {

/// UART baud rate of the command/telemetry link.
pub const BAUD_RATE: u32 = 115_200;

/// I2C address of the INA219 power monitor. The chip runs on its power-on
/// defaults; telemetry is derived from the raw bus/shunt registers.
pub const INA219_ADDR: u8 = 0x40;

/// Flash offset of the settings sector (power state / restore mode).
pub const FLASH_TARGET_OFFSET: u32 = 512 * 1024;

/// Firmware version reported by the `VERSION` command.
pub const VERSION: &'static str = "0.2.0";

/// Firmware name reported by the `VERSION` command.
pub const NAME: &'static str = "jetkvm-dc";

} // verus!
