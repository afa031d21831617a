use picbad::digest::{sha256_hex, to_hex_lower};
use picbad::clock::{millis_or_zero, now_ms};

#[test]
fn hex_is_lower_case_high_nibble_first() {
    assert_eq!(to_hex_lower(&[0x00, 0xff, 0x1a, 0xb0]), "00ff1ab0");
    assert_eq!(to_hex_lower(&[]), "");
}

#[test]
fn sha256_of_known_inputs() {
    assert_eq!(sha256_hex(b""), "e3b0c44298fc1c149afbf4c8996fb92427ae41e4649b934ca495991b7852b855");
    assert_eq!(sha256_hex(b"abc"), "ba7816bf8f01cfea414140de5dae2223b00361a396177a9cb410ff61f20015ad");
}

#[test]
fn clock_is_after_epoch() {
    assert!(now_ms() > 1_600_000_000_000);
}

#[test]
fn clock_before_epoch_reads_zero() {
    assert_eq!(millis_or_zero(None), 0);
    assert_eq!(millis_or_zero(Some(1_700_000_000_123)), 1_700_000_000_123);
}
