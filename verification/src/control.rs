//! The firmware's decisions at boot and in the main loop: the power output
//! after a power-up, what each UART command does, when to confirm an update
//! to the bootloader, and whether the INA219 telemetry is usable.

use vstd::prelude::*;
use crate::flash_store::{
    FlashEntry, FlashStore, PowerState, RestoreMode, SectorWrite, describes_write, last_entry,
    lemma_reload_after_write, sector_after_write, sector_well_formed,
};
use crate::fw_update::BootState;
use crate::uart_handler::Command;

verus! {

/// Whether the power output comes on at boot, given the stored settings.
pub open spec fn output_at_boot(e: FlashEntry) -> bool {
    match e.restore_mode {
        RestoreMode::Off => false,
        RestoreMode::On => true,
        RestoreMode::LastState => e.power_state == PowerState::On,
    }
}

/// Restore modes at boot: with restore mode off the output stays off and with
/// restore mode on it comes on, whatever power state was stored; with "last
/// state" it comes on exactly when the stored power state is on.
pub proof fn lemma_output_at_boot(e: FlashEntry)
    ensures
        e.restore_mode == RestoreMode::Off ==> !output_at_boot(e),
        e.restore_mode == RestoreMode::On ==> output_at_boot(e),
        e.restore_mode == RestoreMode::LastState ==> (output_at_boot(e) <==> e.power_state
            == PowerState::On),
{
}

/// Apply the restore mode on startup: off, on, or the last power state.
pub fn startup_output_on(restore_mode: RestoreMode, power_state: PowerState) -> (on: bool)
    ensures
        on == output_at_boot(FlashEntry { power_state, restore_mode }),
        restore_mode == RestoreMode::Off ==> !on,
        restore_mode == RestoreMode::On ==> on,
        restore_mode == RestoreMode::LastState ==> (on <==> power_state == PowerState::On),
{
    proof {
        lemma_output_at_boot(FlashEntry { power_state, restore_mode });
    }
    match restore_mode {
        RestoreMode::Off => false,
        RestoreMode::On => true,
        RestoreMode::LastState => power_state == PowerState::On,
    }
}

/// The power state reported in telemetry, taken from the output pin.
pub fn output_power_state(is_on: bool) -> (s: PowerState)
    ensures
        s == (if is_on {
            PowerState::On
        } else {
            PowerState::Off
        }),
{
    if is_on {
        PowerState::On
    } else {
        PowerState::Off
    }
}

/// What the firmware does for a command besides updating the settings.
#[derive(Clone, Copy, PartialEq, Eq, Debug, Structural)]
pub enum CommandEffect {
    /// Drive the power output on or off.
    SetOutput(bool),
    /// Send the version response.
    SendVersion,
    /// Run a firmware update transaction.
    FirmwareUpdate,
    /// Nothing (unknown command, or a restore mode change).
    Nothing,
}

/// Handle a command: `PWR_ON`/`PWR_OFF` drive the output and store the power
/// state, the `RESTORE_MODE_*` commands store the restore mode, `VERSION` and
/// `FW_UPDATE` are answered by the firmware. Returns the effect and the flash
/// work that persists a changed setting.
pub fn handle_command(store: &mut FlashStore, cmd: Command) -> (r: (CommandEffect, Option<
    SectorWrite,
>))
    requires
        old(store).wf(),
    ensures
        final(store).wf(),
        r.0 == (match cmd {
            Command::PowerOn => CommandEffect::SetOutput(true),
            Command::PowerOff => CommandEffect::SetOutput(false),
            Command::Version => CommandEffect::SendVersion,
            Command::FwUpdate => CommandEffect::FirmwareUpdate,
            _ => CommandEffect::Nothing,
        }),
        ({
            let old_e = old(store).entry();
            let new_e = match cmd {
                Command::PowerOn => FlashEntry { power_state: PowerState::On, ..old_e },
                Command::PowerOff => FlashEntry { power_state: PowerState::Off, ..old_e },
                Command::RestoreModeOff => FlashEntry { restore_mode: RestoreMode::Off, ..old_e },
                Command::RestoreModeOn => FlashEntry { restore_mode: RestoreMode::On, ..old_e },
                Command::RestoreModeLastState => FlashEntry {
                    restore_mode: RestoreMode::LastState,
                    ..old_e
                },
                _ => old_e,
            };
            &&& final(store).entry() == new_e
            &&& if new_e == old_e {
                &&& r.1 is None
                &&& final(store).sector() == old(store).sector()
            } else {
                &&& final(store).sector() == sector_after_write(old(store).sector(), new_e)
                &&& r.1 matches Some(w) && describes_write(w, old(store).sector(), new_e)
            }
        }),
{
    match cmd {
        Command::PowerOn => (CommandEffect::SetOutput(true), store.set_power_state(PowerState::On)),
        Command::PowerOff => (
            CommandEffect::SetOutput(false),
            store.set_power_state(PowerState::Off),
        ),
        Command::RestoreModeOff => (
            CommandEffect::Nothing,
            store.set_restore_mode(RestoreMode::Off),
        ),
        Command::RestoreModeOn => (CommandEffect::Nothing, store.set_restore_mode(RestoreMode::On)),
        Command::RestoreModeLastState => (
            CommandEffect::Nothing,
            store.set_restore_mode(RestoreMode::LastState),
        ),
        Command::Version => (CommandEffect::SendVersion, None),
        Command::FwUpdate => (CommandEffect::FirmwareUpdate, None),
        Command::Unknown => (CommandEffect::Nothing, None),
    }
}

/// On the first healthy telemetry tick: confirm the running image to the
/// bootloader only when a swap just happened (marking unconditionally would
/// rewrite the state sector on every boot). `None`: the state could not be read.
pub fn should_mark_booted(state: Option<BootState>) -> (r: bool)
    ensures
        r == (state == Some(BootState::Swap)),
{
    match state {
        Some(BootState::Swap) => true,
        _ => false,
    }
}

/// `Address::from_byte` of the `ina219` crate followed by `Address::as_byte`:
/// the address is accepted exactly when it is one of the sixteen INA219 bus
/// addresses 0x40..=0x4F, and is then handed back unchanged.
#[verifier::external_body]
fn ina219_address_from_byte(byte: u8) -> (r: Option<u8>)
    ensures
        r == (if 0x40 <= byte <= 0x4F {
            Some(byte)
        } else {
            None
        }),
{
    match ina219::address::Address::from_byte(byte) {
        Ok(address) => Some(address.as_byte()),
        Err(_) => None,
    }
}

/// The INA219 bus address to use for telemetry, or `None` (telemetry off)
/// when the configured byte is not a valid INA219 address.
pub fn telemetry_address(byte: u8) -> (r: Option<u8>)
    ensures
        r == (if 0x40 <= byte <= 0x4F {
            Some(byte)
        } else {
            None
        }),
{
    ina219_address_from_byte(byte)
}

/// Restore across a power cycle: whatever settings the commands left in
/// effect, a restart from the flash sector they were persisted to powers the
/// output as the restore mode says. In particular `PWR_ON` followed by
/// `RESTORE_MODE_LAST_STATE` brings the power back on after a power cycle.
pub proof fn lemma_power_cycle_restores(s: Seq<u8>, e: FlashEntry, changes: Seq<FlashEntry>)
    requires
        sector_well_formed(s),
        last_entry(s) == e,
    ensures
        ({
            let end = persist_all(s, e, changes);
            &&& sector_well_formed(end.0)
            &&& last_entry(end.0) == end.1
        }),
    decreases changes.len(),
{
    if changes.len() > 0 {
        lemma_power_cycle_restores(s, e, changes.drop_last());
        let prev = persist_all(s, e, changes.drop_last());
        if changes.last() != prev.1 {
            lemma_reload_after_write(prev.0, changes.last());
        }
    }
}

/// The sector and settings after the store is asked for each settings value
/// of `changes` in turn (a write happens only when the value differs).
pub open spec fn persist_all(s: Seq<u8>, e: FlashEntry, changes: Seq<FlashEntry>) -> (Seq<u8>, FlashEntry)
    decreases changes.len(),
{
    if changes.len() == 0 {
        (s, e)
    } else {
        let prev = persist_all(s, e, changes.drop_last());
        if changes.last() == prev.1 {
            prev
        } else {
            (sector_after_write(prev.0, changes.last()), changes.last())
        }
    }
}

} // verus!
