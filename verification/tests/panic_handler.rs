use jetkvm_dc_extension::panic_handler::{
    panic_report, panic_report_byte, uart_write_str, uart_write_u32,
};

#[test]
fn report_with_location() {
    let r = panic_report(Some(("src/main.rs", 123)));
    assert_eq!(
        String::from_utf8(r).unwrap(),
        "PANIC;DC extension firmware panic occurred at src/main.rs:123\n"
    );
}

#[test]
fn report_without_location() {
    assert_eq!(panic_report(None), b"PANIC;DC extension firmware panic occurred\n".to_vec());
}

#[test]
fn decimal_numbers() {
    for n in [0u32, 7, 10, 99, 100, 4_294_967_295] {
        let mut tx = vec![b'#'];
        uart_write_u32(&mut tx, n);
        assert_eq!(tx, format!("#{}", n).into_bytes());
    }
}

#[test]
fn strings_are_queued_as_utf8() {
    let mut tx = Vec::new();
    uart_write_str(&mut tx, "a");
    uart_write_str(&mut tx, "µ");
    assert_eq!(tx, "aµ".as_bytes().to_vec());
}

#[test]
fn report_byte_by_byte_matches_the_report() {
    for location in [None, Some(("src/main.rs", 0)), Some(("a.rs", 4_294_967_295)), Some(("", 1234))] {
        let whole = panic_report(location);
        let mut bytes = Vec::new();
        let mut i = 0;
        while let Some(b) = panic_report_byte(location, i) {
            bytes.push(b);
            i += 1;
        }
        assert_eq!(bytes, whole);
        assert_eq!(panic_report_byte(location, whole.len() + 5), None);
    }
}
