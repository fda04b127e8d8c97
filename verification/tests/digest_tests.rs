use vehicle_audio_engine::digest::{is_hex_sha256, sha256_hex};
use vehicle_audio_engine::text::{str_eq, str_lt, to_hex_lower, push_decimal};

#[test]
fn sha256_of_known_inputs() {
    assert_eq!(
        sha256_hex(b"abc"),
        "ba7816bf8f01cfea414140de5dae2223b00361a396177a9cb410ff61f20015ad"
    );
    assert_eq!(
        sha256_hex(b""),
        "e3b0c44298fc1c149afbf4c8996fb92427ae41e4649b934ca495991b7852b855"
    );
}

#[test]
fn digest_text_is_recognised_as_sha256() {
    assert!(is_hex_sha256(&sha256_hex(b"bank")));
    assert!(is_hex_sha256(&"AbCdEf0123456789".repeat(4)));
    assert!(!is_hex_sha256(&"g".repeat(64)));
    assert!(!is_hex_sha256(&"a".repeat(63)));
    assert!(!is_hex_sha256(&"a".repeat(65)));
}

#[test]
fn text_helpers() {
    assert_eq!(to_hex_lower(&[0x00, 0x0f, 0xa5, 0xff]), "000fa5ff");
    let mut s = String::from("n=");
    push_decimal(&mut s, 0);
    push_decimal(&mut s, 1904);
    assert_eq!(s, "n=01904");
    assert!(str_eq("shift_up", "shift_up"));
    assert!(!str_eq("shift_up", "shift_u"));
    assert!(str_lt("common.kerb", "common.kerb_mid"));
    assert!(str_lt("a", "b"));
    assert!(!str_lt("b", "a"));
    assert!(!str_lt("same", "same"));
    assert!(str_lt("", "x"));
}
