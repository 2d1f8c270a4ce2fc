use jetkvm_dc_extension::direct_flash::{merge_page, DirectFlash, FlashErrorKind, WriteOp};

const SIZE: u32 = 2 * 1024 * 1024;

#[test]
fn capacity_and_reads() {
    let f = DirectFlash::<SIZE>;
    assert_eq!(f.capacity(), 2 * 1024 * 1024);
    assert!(f.check_read(0, 4096).is_ok());
    assert!(f.check_read(SIZE - 1, 1).is_ok());
    assert_eq!(f.check_read(SIZE - 1, 2).unwrap_err().kind(), FlashErrorKind::OutOfBounds);
    assert_eq!(f.check_read(u32::MAX, 2).unwrap_err().kind(), FlashErrorKind::OutOfBounds);
}

#[test]
fn erase_plans() {
    let f = DirectFlash::<SIZE>;
    assert_eq!(f.erase_plan(0x1000, 0x4000).unwrap(), vec![0x1000, 0x2000, 0x3000]);
    assert_eq!(f.erase_plan(0x1000, 0x1000).unwrap(), Vec::<u32>::new());
    assert_eq!(f.erase_plan(0x1001, 0x2000).unwrap_err().kind(), FlashErrorKind::NotAligned);
    assert_eq!(f.erase_plan(0x2000, 0x1000).unwrap_err().kind(), FlashErrorKind::NotAligned);
    assert_eq!(f.erase_plan(0, SIZE + 4096).unwrap_err().kind(), FlashErrorKind::OutOfBounds);
}

#[test]
fn write_plans() {
    let f = DirectFlash::<SIZE>;
    assert_eq!(f.write_plan(5, 0).unwrap(), vec![]);
    assert_eq!(f.write_plan(SIZE, 1).unwrap_err().kind(), FlashErrorKind::OutOfBounds);
    assert_eq!(
        f.write_plan(0x100, 0x300).unwrap(),
        vec![WriteOp::Pages { addr: 0x100, src: 0, len: 0x300 }]
    );
    assert_eq!(
        f.write_plan(0x1F0, 0x220).unwrap(),
        vec![
            WriteOp::Merge { page_base: 0x100, in_page_off: 0xF0, src: 0, len: 0x10 },
            WriteOp::Pages { addr: 0x200, src: 0x10, len: 0x200 },
            WriteOp::Merge { page_base: 0x400, in_page_off: 0, src: 0x210, len: 0x10 },
        ]
    );
    assert_eq!(
        f.write_plan(3, 2).unwrap(),
        vec![WriteOp::Merge { page_base: 0, in_page_off: 3, src: 0, len: 2 }]
    );
}

#[test]
fn merged_page() {
    let page: Vec<u8> = (0..=255u8).collect();
    let m = merge_page(&page, 10, &[0xAA, 0xBB]);
    assert_eq!(m.len(), 256);
    assert_eq!(&m[..10], &page[..10]);
    assert_eq!(&m[10..12], &[0xAA, 0xBB]);
    assert_eq!(&m[12..], &page[12..]);
}
