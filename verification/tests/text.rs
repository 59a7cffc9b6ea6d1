use t0_gpu::asm_emitter::{sreg_range_str, vreg_range_str};
use t0_gpu::text::{push_dec, push_hex, push_hex_padded, push_int};

#[test]
fn numbers_are_written() {
    let mut s = String::new();
    push_dec(&mut s, 0);
    push_dec(&mut s, u64::MAX);
    assert_eq!(s, "018446744073709551615");
    let mut s = String::from("x");
    push_int(&mut s, i32::MIN);
    push_int(&mut s, 7);
    assert_eq!(s, "x-21474836487");
    let mut s = String::new();
    push_hex(&mut s, 0xBEEF);
    push_hex_padded(&mut s, 0xBEEF, 8);
    push_hex_padded(&mut s, 0xBEEF, 2);
    assert_eq!(s, "0xbeef0x0000beef0xbeef");
}

#[test]
fn register_ranges_are_written() {
    assert_eq!(vreg_range_str(4, 1), "v4");
    assert_eq!(vreg_range_str(4, 4), "v[4:7]");
    assert_eq!(sreg_range_str(6, 2), "s[6:7]");
}
