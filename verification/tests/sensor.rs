use jetkvm_dc_extension::sensor::{
    as_signed, detect, ina219_bus_mv, ina219_current_ma, probe_found_ina700, u16_from_be_bytes,
    DetectStep, Kind, PowerSensor, ReadStep,
};

#[test]
fn detection_falls_back_to_ina219_after_three_probes() {
    let mut d = detect(0x40);
    assert_eq!(d.next_step(), DetectStep::Probe(0));
    d.record_probe(None);
    assert_eq!(d.next_step(), DetectStep::Probe(50));
    d.record_probe(Some((0x12, 0x34)));
    assert_eq!(d.next_step(), DetectStep::Probe(50));
    d.record_probe(None);
    assert_eq!(d.next_step(), DetectStep::Done);
    let s = d.finish();
    assert_eq!(s.kind, Kind::Ina219);
    assert_eq!(s.kind(), "INA219");
}

#[test]
fn detection_stops_at_the_ina700() {
    let mut d = detect(0x40);
    d.record_probe(None);
    d.record_probe(Some((0x54, 0x49)));
    assert_eq!(d.next_step(), DetectStep::Done);
    let s = d.finish();
    assert_eq!(s.kind(), "INA700");
    assert_eq!(s.voltage_register(), (0x44, 0x05));
}

#[test]
fn fifth_consecutive_failure_triggers_a_reprobe() {
    let mut s = PowerSensor { ina219_addr: 0x40, kind: Kind::Ina219, consecutive_failures: 0 };
    assert_eq!(s.voltage_register(), (0x40, 0x02));
    for _ in 0..4 {
        assert_eq!(s.on_voltage_read(None), ReadStep::Zeros);
    }
    assert_eq!(s.on_voltage_read(None), ReadStep::Redetect);
    assert_eq!(s.consecutive_failures, 0);
    s.on_redetect_probe(None);
    assert_eq!(s.kind, Kind::Ina219);
    assert_eq!(s.on_voltage_read(None), ReadStep::Zeros);
    assert_eq!(s.on_voltage_read(Some(0x1234)), ReadStep::ReadCurrent(0x40, 0x01));
    assert_eq!(s.consecutive_failures, 0);
    s.on_redetect_probe(Some((0x54, 0x49)));
    assert_eq!(s.kind, Kind::Ina700);
    assert_eq!(s.on_voltage_read(None), ReadStep::Zeros);
    assert_eq!(s.on_voltage_read(Some(1)), ReadStep::ReadCurrent(0x44, 0x07));
}

#[test]
fn register_decoding() {
    assert_eq!(u16_from_be_bytes(0x54, 0x49), 0x5449);
    assert!(probe_found_ina700(Some((0x54, 0x49))));
    assert!(!probe_found_ina700(Some((0x49, 0x54))));
    assert!(!probe_found_ina700(None));
    // 12 V: 3000 steps of 4 mV in bits 15..3, flags in the low bits.
    assert_eq!(ina219_bus_mv((3000 << 3) | 0b011), 12_000);
    assert_eq!(ina219_current_ma(500), 500);
    assert_eq!(ina219_current_ma(0xFFFF), -1);
    assert_eq!(as_signed(0x8000), i16::MIN);
}
