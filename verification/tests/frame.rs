use memreader::frame::address_only;

#[test]
fn address_only_of_zero() {
    assert_eq!(address_only(0), "0x0");
}

#[test]
fn address_only_of_single_digits() {
    assert_eq!(address_only(9), "0x9");
    assert_eq!(address_only(10), "0xa");
    assert_eq!(address_only(15), "0xf");
}

#[test]
fn address_only_has_no_leading_zeros() {
    assert_eq!(address_only(16), "0x10");
    assert_eq!(address_only(0x0040_1a2b), "0x401a2b");
}

#[test]
fn address_only_uses_lower_case_digits() {
    assert_eq!(address_only(0xDEAD_BEEF), "0xdeadbeef");
    assert_eq!(address_only(0x0123_4567_89AB_CDEF), "0x123456789abcdef");
}

#[test]
fn address_only_of_the_largest_address() {
    assert_eq!(address_only(u64::MAX), "0xffffffffffffffff");
}

#[test]
fn address_only_agrees_with_std_formatting() {
    let samples: Vec<u64> = vec![0, 1, 15, 16, 255, 256, 4095, 4096, 0x7fff_ffff_f000, u64::MAX - 1];
    for ip in samples {
        assert_eq!(address_only(ip), format!("{:#x}", ip));
    }
}
