use jetkvm_dc_extension::config::FLASH_TARGET_OFFSET;
use jetkvm_dc_extension::flash_store::{FlashStore, PowerState, RestoreMode, SectorWrite};

fn erased() -> Vec<u8> {
    vec![0xFF; 4096]
}

/// Replays a sector write on a plain image, as the firmware does on flash.
fn replay(image: &mut Vec<u8>, w: &SectorWrite) {
    if w.erase_first {
        for b in image.iter_mut() {
            *b = 0xFF;
        }
    }
    let start = (w.offset - FLASH_TARGET_OFFSET) as usize;
    for (i, b) in w.page.iter().enumerate() {
        image[start + i] &= *b;
    }
}

#[test]
fn erased_sector_reads_default_settings() {
    let store = FlashStore::new(erased());
    assert_eq!(store.power_state(), PowerState::Off);
    assert_eq!(store.restore_mode(), RestoreMode::Off);
}

#[test]
fn set_power_state_writes_first_free_slot() {
    let mut store = FlashStore::new(erased());
    let w = store.set_power_state(PowerState::On).expect("a write");
    assert!(!w.erase_first);
    assert_eq!(w.offset, FLASH_TARGET_OFFSET);
    assert_eq!(w.page.len(), 256);
    assert_eq!(w.page[0], 1);
    assert_eq!(w.page[1], 0);
    assert!(w.page[2..].iter().all(|b| *b == 0xFF));
    let w2 = store.set_restore_mode(RestoreMode::LastState).expect("a write");
    assert_eq!(w2.offset, FLASH_TARGET_OFFSET + 256);
    assert_eq!(w2.page[0], 1);
    assert_eq!(w2.page[1], 2);
}

#[test]
fn unchanged_setting_writes_nothing() {
    let mut store = FlashStore::new(erased());
    assert!(store.set_power_state(PowerState::Off).is_none());
    assert!(store.set_restore_mode(RestoreMode::Off).is_none());
}

#[test]
fn settings_survive_power_cycle() {
    let mut image = erased();
    let mut store = FlashStore::new(image.clone());
    replay(&mut image, &store.set_power_state(PowerState::On).unwrap());
    replay(&mut image, &store.set_restore_mode(RestoreMode::LastState).unwrap());
    let reloaded = FlashStore::new(image);
    assert_eq!(reloaded.power_state(), PowerState::On);
    assert_eq!(reloaded.restore_mode(), RestoreMode::LastState);
}

#[test]
fn sector_wraps_after_sixteen_entries() {
    let mut image = erased();
    let mut store = FlashStore::new(image.clone());
    let mut erases = 0;
    for i in 0..20 {
        let state = if i % 2 == 0 { PowerState::On } else { PowerState::Off };
        let w = store.set_power_state(state).unwrap();
        if w.erase_first {
            erases += 1;
            assert_eq!(i, 16);
            assert_eq!(w.offset, FLASH_TARGET_OFFSET);
        }
        replay(&mut image, &w);
    }
    assert_eq!(erases, 1);
    let reloaded = FlashStore::new(image);
    // The last of 20 changes (i = 19) switched the power off.
    assert_eq!(reloaded.power_state(), PowerState::Off);
    assert_eq!(reloaded.restore_mode(), RestoreMode::Off);
}

#[test]
fn invalid_entries_are_skipped() {
    let mut image = erased();
    image[0] = 1;
    image[1] = 2; // slot 0: On, LastState
    image[256] = 7;
    image[257] = 0; // slot 1: garbage
    let store = FlashStore::new(image);
    assert_eq!(store.power_state(), PowerState::On);
    assert_eq!(store.restore_mode(), RestoreMode::LastState);
}

#[test]
fn byte_codes() {
    assert_eq!(PowerState::from_byte(0), Some(PowerState::Off));
    assert_eq!(PowerState::from_byte(1), Some(PowerState::On));
    assert_eq!(PowerState::from_byte(2), None);
    assert_eq!(RestoreMode::from_byte(2), Some(RestoreMode::LastState));
    assert_eq!(RestoreMode::from_byte(3), None);
    assert_eq!(RestoreMode::LastState.as_u8(), 2);
    assert_eq!(PowerState::On.as_u8(), 1);
}

#[test]
fn appended_entry_reads_back() {
    let mut store = FlashStore::new(erased());
    for k in 0..20u32 {
        let (p, r) = if k % 2 == 0 {
            (PowerState::On, RestoreMode::LastState)
        } else {
            (PowerState::Off, RestoreMode::On)
        };
        let w = store.write_entry(p, r);
        assert_eq!(w.erase_first, k == 16);
        let e = store.read_last_entry();
        assert_eq!((e.power_state, e.restore_mode), (p, r));
    }
}
