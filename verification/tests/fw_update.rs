use jetkvm_dc_extension::fw_update::{
    crc32_update, u32_from_le_bytes, BootState, FwUpdate, Reply, UpdateAction, UpdateEvent,
    UpdateStep,
};

fn zlib_crc(data: &[u8]) -> u32 {
    !crc32_update(0xFFFF_FFFF, data)
}

#[test]
fn crc32_check_value() {
    assert_eq!(zlib_crc(b"123456789"), 0xCBF4_3926);
    assert_eq!(zlib_crc(b""), 0);
}

#[test]
fn crc32_chunked_equals_whole() {
    let data: Vec<u8> = (0..10_000u32).map(|i| (i * 7 + 3) as u8).collect();
    let mut crc = 0xFFFF_FFFF;
    for chunk in data.chunks(4096) {
        crc = crc32_update(crc, chunk);
    }
    assert_eq!(!crc, zlib_crc(&data));
}

#[test]
fn le_word() {
    assert_eq!(u32_from_le_bytes(&[0x78, 0x56, 0x34, 0x12]), 0x1234_5678);
}

fn reply_text(a: &UpdateAction) -> Option<&'static str> {
    a.reply.map(|r| r.text())
}

/// Drives a whole transaction, simulating the flash; returns the replies and
/// whether the update was marked.
fn run(image: &[u8], sent_crc: u32, corrupt_staging: bool) -> (Vec<&'static str>, bool) {
    let (replies, marked, _, _) = run_logged(image, sent_crc, corrupt_staging);
    (replies, marked)
}

/// As `run`, also returning the erased sector offsets in order and the DFU
/// partition afterwards.
fn run_logged(
    image: &[u8],
    sent_crc: u32,
    corrupt_staging: bool,
) -> (Vec<&'static str>, bool, Vec<u32>, Vec<u8>) {
    let mut erases = Vec::new();
    let mut dfu = vec![0u8; 300 * 1024];
    let (mut s, mut a) = FwUpdate::new();
    let mut replies = Vec::new();
    let mut marked = false;
    let mut image_pos = 0usize;
    let mut sent_len = false;
    let mut sent_crc_word = false;
    let mut staged: Vec<u8> = Vec::new();
    loop {
        if let Some(t) = reply_text(&a) {
            replies.push(t);
        }
        let ev = match a.step {
            UpdateStep::Receive(n) => {
                if !sent_len {
                    sent_len = true;
                    UpdateEvent::Received(Some((image.len() as u32).to_le_bytes().to_vec()))
                } else if image_pos < image.len() {
                    let chunk = image[image_pos..image_pos + n].to_vec();
                    image_pos += n;
                    UpdateEvent::Received(Some(chunk))
                } else if !sent_crc_word {
                    sent_crc_word = true;
                    UpdateEvent::Received(Some(sent_crc.to_le_bytes().to_vec()))
                } else {
                    UpdateEvent::Received(None)
                }
            }
            UpdateStep::CheckBootState => UpdateEvent::BootStateRead(Some(BootState::Boot)),
            UpdateStep::Erase(o) => {
                erases.push(o);
                for b in &mut dfu[o as usize..o as usize + 4096] {
                    *b = 0xFF;
                }
                UpdateEvent::Erased(true)
            }
            UpdateStep::Program(o) => {
                let o = o as usize;
                dfu[o..o + s.chunk.len()].copy_from_slice(&s.chunk);
                UpdateEvent::Programmed(true)
            }
            UpdateStep::ReadBack(n) => {
                staged = dfu[..n as usize].to_vec();
                if corrupt_staging {
                    staged[0] ^= 1;
                }
                UpdateEvent::ReadBack(&staged)
            }
            UpdateStep::MarkUpdated => {
                marked = true;
                UpdateEvent::Marked(true)
            }
            UpdateStep::Reset | UpdateStep::Abort => break,
        };
        a = s.handle(ev);
    }
    (replies, marked, erases, dfu)
}

#[test]
fn successful_update() {
    let image: Vec<u8> = (0..9000u32).map(|i| (i % 251) as u8).collect();
    let (replies, marked) = run(&image, zlib_crc(&image), false);
    assert!(marked);
    assert_eq!(replies, vec!["OK\n", "RECV\n", "ACK\n", "ACK\n", "ACK\n", "CRCOK\nFLASH\n"]);
}

#[test]
fn wrong_crc_is_refused() {
    let image = vec![0x5Au8; 5000];
    let (replies, marked) = run(&image, zlib_crc(&image) ^ 1, false);
    assert!(!marked);
    assert_eq!(replies.last(), Some(&"ERR:crc\n"));
}

#[test]
fn staging_mismatch_is_refused() {
    let image = vec![0x11u8; 100];
    let (replies, marked) = run(&image, zlib_crc(&image), true);
    assert!(!marked);
    assert_eq!(replies.last(), Some(&"ERR:verify\n"));
}

#[test]
fn bad_sizes_are_refused() {
    for len in [0u32, 256 * 1024 + 1] {
        let (mut s, _) = FwUpdate::new();
        let a = s.handle(UpdateEvent::Received(Some(len.to_le_bytes().to_vec())));
        assert_eq!(a.reply, Some(Reply::ErrSize));
        assert_eq!(a.step, UpdateStep::Abort);
    }
    let (mut s, _) = FwUpdate::new();
    let a = s.handle(UpdateEvent::Received(Some((256u32 * 1024).to_le_bytes().to_vec())));
    assert_eq!(a.step, UpdateStep::CheckBootState);
}

#[test]
fn timeout_and_mid_swap_are_refused() {
    let (mut s, _) = FwUpdate::new();
    let a = s.handle(UpdateEvent::Received(None));
    assert_eq!(a.reply, Some(Reply::ErrTimeout));
    let (mut s, _) = FwUpdate::new();
    s.handle(UpdateEvent::Received(Some(10u32.to_le_bytes().to_vec())));
    let a = s.handle(UpdateEvent::BootStateRead(Some(BootState::Swap)));
    assert_eq!(a.reply, Some(Reply::ErrFlash));
    assert_eq!(a.reply.unwrap().text(), "ERR:flash\n");
}

#[test]
fn flash_error_aborts() {
    let (mut s, _) = FwUpdate::new();
    s.handle(UpdateEvent::Received(Some(10u32.to_le_bytes().to_vec())));
    let a = s.handle(UpdateEvent::BootStateRead(Some(BootState::Revert)));
    assert_eq!(a.step, UpdateStep::Receive(10));
    let a = s.handle(UpdateEvent::Received(Some(vec![1; 10])));
    assert_eq!(a.step, UpdateStep::Erase(0));
    assert!(a.feed_watchdog);
    let a = s.handle(UpdateEvent::Erased(false));
    assert_eq!(a.reply, Some(Reply::ErrFlash));
    assert_eq!(a.step, UpdateStep::Abort);
}

#[test]
fn hello_update_is_accepted() {
    assert_eq!(zlib_crc(b"hello"), 0x3610_A686);
    let (replies, marked, erases, dfu) = run_logged(b"hello", 0x3610_A686, false);
    assert!(marked);
    assert_eq!(replies, vec!["OK\n", "RECV\n", "ACK\n", "CRCOK\nFLASH\n"]);
    assert_eq!(erases, vec![0]);
    assert_eq!(&dfu[..5], b"hello");
}

#[test]
fn each_sector_is_erased_once_in_order() {
    for len in [1usize, 4096, 4097, 9000, 256 * 1024] {
        let image: Vec<u8> = (0..len).map(|i| (i * 7 % 256) as u8).collect();
        let (_, marked, erases, dfu) = run_logged(&image, zlib_crc(&image), false);
        assert!(marked);
        let sectors = (len + 4095) / 4096;
        assert_eq!(erases, (0..sectors as u32).map(|k| k * 4096).collect::<Vec<_>>());
        assert_eq!(&dfu[..len], &image[..]);
    }
}
