use a6_tools::opcode::{recognize_sysex, Opcode};

#[test]
fn recognize_sysex_ok() {
    let msg = &[0x00, 0x00, 0x0E, 0x1D, 0x30, 0x5A, 0xA5];

    let rec = recognize_sysex(msg);

    assert_eq!(rec, Some((Opcode::OsBlock, &[0x5A, 0xA5][..])))
}

#[test]
fn recognize_sysex_bad_prefix() {
    let msg = &[0x00, 0xFF, 0x0E, 0x1D, 0x30, 0x5A, 0xA5];

    let rec = recognize_sysex(msg);

    assert_eq!(rec, None);
}

#[test]
fn recognize_sysex_bad_opcode() {
    let msg = &[0x00, 0x00, 0x0E, 0x1D, 0xFF, 0x5A, 0xA5];

    let rec = recognize_sysex(msg);

    assert_eq!(rec, None);
}

#[test]
fn recognize_sysex_underflow() {
    let msg = &[0x00, 0x00, 0x0E];

    let rec = recognize_sysex(msg);

    assert_eq!(rec, None);
}

#[test]
fn recognize_sysex_boot_block() {
    let msg = &[0x00, 0x00, 0x0E, 0x1D, 0x3F];

    let rec = recognize_sysex(msg);

    assert_eq!(rec, Some((Opcode::BootBlock, &[][..])));
}

#[test]
fn recognize_sysex_patch_opcodes() {
    let msg = &[0x00, 0x00, 0x0E, 0x1D, 0x00, 0x01];
    assert_eq!(recognize_sysex(msg), Some((Opcode::Pgm, &[0x01][..])));

    let msg = &[0x00, 0x00, 0x0E, 0x1D, 0x0E];
    assert_eq!(recognize_sysex(msg), Some((Opcode::Edit, &[][..])));

    // First undefined byte past the patch range.
    let msg = &[0x00, 0x00, 0x0E, 0x1D, 0x0F];
    assert_eq!(recognize_sysex(msg), None);
}
