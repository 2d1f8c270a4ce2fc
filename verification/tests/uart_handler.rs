use jetkvm_dc_extension::uart_handler::{parse_line, version_message, Command, UartHandler};

#[test]
fn parses_each_command() {
    assert_eq!(parse_line(b"PWR_ON\n"), Command::PowerOn);
    assert_eq!(parse_line(b"PWR_OFF\n"), Command::PowerOff);
    assert_eq!(parse_line(b"RESTORE_MODE_OFF\n"), Command::RestoreModeOff);
    assert_eq!(parse_line(b"RESTORE_MODE_ON\n"), Command::RestoreModeOn);
    assert_eq!(parse_line(b"RESTORE_MODE_LAST_STATE\n"), Command::RestoreModeLastState);
    assert_eq!(parse_line(b"VERSION\n"), Command::Version);
    assert_eq!(parse_line(b"FW_UPDATE\n"), Command::FwUpdate);
}

#[test]
fn white_space_around_a_command_is_ignored() {
    assert_eq!(parse_line(b"  VERSION \r\n"), Command::Version);
    assert_eq!(parse_line(b"\tPWR_ON"), Command::PowerOn);
    // U+3000 IDEOGRAPHIC SPACE before, U+00A0 NO-BREAK SPACE after.
    assert_eq!(parse_line("\u{3000}PWR_OFF\u{a0}\n".as_bytes()), Command::PowerOff);
}

#[test]
fn anything_else_is_unknown() {
    assert_eq!(parse_line(b""), Command::Unknown);
    assert_eq!(parse_line(b"\n"), Command::Unknown);
    assert_eq!(parse_line(b"PWR ON\n"), Command::Unknown);
    assert_eq!(parse_line(b"pwr_on\n"), Command::Unknown);
    assert_eq!(parse_line(b"PWR_ONX\n"), Command::Unknown);
    // Invalid UTF-8 around the name.
    assert_eq!(parse_line(b"\xffPWR_ON\n"), Command::Unknown);
    assert_eq!(parse_line(b"PWR_ON\xc2\n"), Command::Unknown);
    // Agrees with trimming the UTF-8 text.
    for line in [&b" VERSION\x0b"[..], b"VERSION\x1c", "VERSION\u{85}".as_bytes()] {
        let trimmed = std::str::from_utf8(line).map(|s| s.trim() == "VERSION").unwrap_or(false);
        assert_eq!(parse_line(line) == Command::Version, trimmed);
    }
}

#[test]
fn bytes_after_a_newline_stay_for_the_next_call() {
    let mut h = UartHandler::new();
    let input = b"PWR_ON\nVERSION\n";
    let (used, cmd) = h.feed(input);
    assert_eq!((used, cmd), (7, Some(Command::PowerOn)));
    let (used2, cmd2) = h.feed(&input[used..]);
    assert_eq!((used2, cmd2), (8, Some(Command::Version)));
}

#[test]
fn partial_lines_are_kept_across_calls() {
    let mut h = UartHandler::new();
    assert_eq!(h.feed(b"RESTORE_MO"), (10, None));
    assert_eq!(h.feed(b"DE_ON\n"), (6, Some(Command::RestoreModeOn)));
}

#[test]
fn oversized_line_recovers() {
    let mut h = UartHandler::new();
    let mut stream: Vec<u8> = vec![b'X'; 500];
    stream.push(b'\n');
    stream.extend_from_slice(b"VERSION\n");
    let mut commands = Vec::new();
    let mut pos = 0;
    while pos < stream.len() {
        let end = (pos + 64).min(stream.len());
        let (used, cmd) = h.feed(&stream[pos..end]);
        pos += used;
        if let Some(c) = cmd {
            commands.push(c);
        }
    }
    // Lines are cut every 127 bytes: 500 X's give three full lines and a
    // remainder ended by the newline, then VERSION.
    assert_eq!(
        commands,
        vec![Command::Unknown, Command::Unknown, Command::Unknown, Command::Unknown, Command::Version]
    );
}

#[test]
fn discarded_partial_line_is_gone() {
    let mut h = UartHandler::new();
    h.feed(b"PWR_");
    h.discard_partial_line();
    assert_eq!(h.feed(b"ON\n"), (3, Some(Command::Unknown)));
}

#[test]
fn version_response() {
    assert_eq!(version_message(), b"EXTVER;jetkvm-dc;0.2.0\n".to_vec());
}
