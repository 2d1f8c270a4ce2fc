use jetkvm_dc_extension::control::{
    handle_command, output_power_state, should_mark_booted, startup_output_on, telemetry_address,
    CommandEffect,
};
use jetkvm_dc_extension::flash_store::{FlashStore, PowerState, RestoreMode};
use jetkvm_dc_extension::fw_update::BootState;
use jetkvm_dc_extension::uart_handler::Command;

#[test]
fn restore_mode_at_boot() {
    assert!(!startup_output_on(RestoreMode::Off, PowerState::On));
    assert!(startup_output_on(RestoreMode::On, PowerState::Off));
    assert!(startup_output_on(RestoreMode::LastState, PowerState::On));
    assert!(!startup_output_on(RestoreMode::LastState, PowerState::Off));
}

#[test]
fn commands() {
    let mut store = FlashStore::new(vec![0xFF; 4096]);
    let (e, w) = handle_command(&mut store, Command::PowerOn);
    assert_eq!(e, CommandEffect::SetOutput(true));
    assert!(w.is_some());
    let (e, w) = handle_command(&mut store, Command::PowerOn);
    assert_eq!(e, CommandEffect::SetOutput(true));
    assert!(w.is_none());
    let (e, w) = handle_command(&mut store, Command::RestoreModeLastState);
    assert_eq!(e, CommandEffect::Nothing);
    assert_eq!(w.unwrap().page[..2], [1, 2]);
    assert_eq!(handle_command(&mut store, Command::Version).0, CommandEffect::SendVersion);
    assert_eq!(handle_command(&mut store, Command::FwUpdate).0, CommandEffect::FirmwareUpdate);
    assert_eq!(handle_command(&mut store, Command::Unknown).0, CommandEffect::Nothing);
    assert_eq!(handle_command(&mut store, Command::PowerOff).0, CommandEffect::SetOutput(false));
    assert_eq!(store.power_state(), PowerState::Off);
    assert_eq!(store.restore_mode(), RestoreMode::LastState);
}

#[test]
fn boot_confirmation() {
    assert!(should_mark_booted(Some(BootState::Swap)));
    assert!(!should_mark_booted(Some(BootState::Boot)));
    assert!(!should_mark_booted(None));
}

#[test]
fn telemetry_state_and_address() {
    assert_eq!(output_power_state(true), PowerState::On);
    assert_eq!(output_power_state(false), PowerState::Off);
    assert_eq!(telemetry_address(0x40), Some(0x40));
    assert_eq!(telemetry_address(0x4F), Some(0x4F));
    assert_eq!(telemetry_address(42), None);
    assert_eq!(telemetry_address(0x50), None);
}

#[test]
fn power_comes_back_after_a_power_cycle() {
    let mut image = vec![0xFF; 4096];
    let mut store = FlashStore::new(image.clone());
    for cmd in [Command::PowerOn, Command::RestoreModeLastState] {
        if let (_, Some(w)) = handle_command(&mut store, cmd) {
            if w.erase_first {
                image.iter_mut().for_each(|b| *b = 0xFF);
            }
            let start = (w.offset - jetkvm_dc_extension::config::FLASH_TARGET_OFFSET) as usize;
            for (i, b) in w.page.iter().enumerate() {
                image[start + i] &= *b;
            }
        }
    }
    let rebooted = FlashStore::new(image);
    assert_eq!(rebooted.power_state(), PowerState::On);
    assert_eq!(rebooted.restore_mode(), RestoreMode::LastState);
    assert!(startup_output_on(rebooted.restore_mode(), rebooted.power_state()));
}
