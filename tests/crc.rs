use ext4::parse::ext4_style_crc32c_le;

fn assert_crc(ex: u32, seed: u32, input: &[u8]) {
    let ac = ext4_style_crc32c_le(seed, input);
    if ex != ac {
        panic!(
            "CRC didn't match! ex: {:08x}, ac: {:08x}, len: {}",
            ex,
            ac,
            input.len()
        );
    }
}

#[test]
fn crcs() {
    assert_eq!(0xffff_ffffu32, !0);
    // e3069283 is the "standard" test vector that you can Google up.
    assert_eq!(0x1cf96d7cu32, 0xe3069283u32 ^ !0);
    assert_crc(0x1cf96d7c, !0, b"123456789");
    assert_crc(0x58e3fa20, 0, b"123456789");
}
