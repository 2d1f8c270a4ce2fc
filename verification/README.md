# JetKVM DC Power Extension - verified core

Power monitoring and control firmware for the JetKVM DC extension (RP2040).
The decisions the firmware makes are a Verus-verified library (`src/`); the
firmware binary (`app/`) performs the hardware I/O around it.

`src/`
- `flash_store.rs` - power state and restore mode kept as a wear-levelled log
  in one flash sector, with the persistence laws (a restart reads back the
  last setting written, also across sector wrap-around; the log keeps its
  shape of valid used slots followed by erased flash).
- `uart_handler.rs` - line assembly and command parsing, version response.
- `text.rs` - lines as UTF-8 text: white-space trimming, and the proof that
  the byte-level parser reads a line as decoding and trimming it would.
- `fw_update.rs` - CRC-32 and the UART firmware-update protocol as a state
  machine; each phase changes only its own part of the session, and an
  update is only marked after the received image and its staged copy match
  the sender's CRC.
- `direct_flash.rs` - range checks and the split of erases/writes into
  bootrom operations, with the proofs that a planned write programs exactly
  the requested bytes and that erase, then write, then read gives the data
  back.
- `sensor.rs` - INA219/INA700 detection and failure-driven re-detection,
  register decoding.
- `panic_handler.rs` - the panic report sent over the UART (also byte by
  byte, so the panic handler needs no heap).
- `control.rs` - restore mode at boot, command dispatch, boot confirmation.
- `config.rs` - constants.

`app/` - embassy-based firmware: UART, I2C, GPIO, bootrom flash access,
watchdog, bootloader state, floating-point telemetry.

The library returns `Vec`s, so the firmware provides a 32 KiB heap
(`embedded-alloc`, set up in `app/main.rs`). The panic report is sent byte by
byte, so reporting a panic needs no heap.
