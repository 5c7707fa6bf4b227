use mmr_nostr::codec::{hash_from_hex, hash_to_hex, pos_from_text, pos_to_text};

fn counting() -> [u8; 32] {
    let mut h = [0u8; 32];
    for (i, b) in h.iter_mut().enumerate() {
        *b = (i as u8) * 8 + 1;
    }
    h
}

#[test]
fn zero_digest_is_sixty_four_zeros() {
    assert_eq!(hash_to_hex(&[0u8; 32]), "0".repeat(64));
}

#[test]
fn digest_text_has_high_half_first_in_lower_case() {
    assert_eq!(
        hash_to_hex(&counting()),
        "0109111921293139414951596169717981899199a1a9b1b9c1c9d1d9e1e9f1f9"
    );
    assert_eq!(hash_to_hex(&[0xab; 32]), "ab".repeat(32));
    assert_eq!(hash_to_hex(&[0x0f; 32]), "0f".repeat(32));
}

#[test]
fn digest_text_is_read_back() {
    let h = counting();
    assert_eq!(hash_from_hex(&hash_to_hex(&h)), Some(h));
    assert_eq!(hash_from_hex(&"0".repeat(64)), Some([0u8; 32]));
    assert_eq!(hash_from_hex(&"ff".repeat(32)), Some([0xff; 32]));
}

#[test]
fn digest_text_is_read_in_upper_case_too() {
    assert_eq!(hash_from_hex(&"AB".repeat(32)), Some([0xab; 32]));
    assert_eq!(hash_from_hex(&"aB".repeat(32)), Some([0xab; 32]));
    assert_eq!(
        hash_from_hex("0109111921293139414951596169717981899199A1A9B1B9C1C9D1D9E1E9F1F9"),
        Some(counting())
    );
}

#[test]
fn digest_text_of_wrong_length_is_refused() {
    assert_eq!(hash_from_hex(""), None);
    assert_eq!(hash_from_hex(&"0".repeat(63)), None);
    assert_eq!(hash_from_hex(&"0".repeat(65)), None);
    assert_eq!(hash_from_hex(&"0".repeat(32)), None);
}

#[test]
fn digest_text_with_other_characters_is_refused() {
    let mut text = "0".repeat(63);
    text.push('g');
    assert_eq!(hash_from_hex(&text), None);
    let mut text = "0".repeat(63);
    text.insert(0, ' ');
    assert_eq!(hash_from_hex(&text), None);
    let mut text = "0".repeat(63);
    text.push('é');
    assert_eq!(hash_from_hex(&text), None);
    let mut text = "0".repeat(62);
    text.push_str("0x");
    assert_eq!(hash_from_hex(&text), None);
}

#[test]
fn positions_are_written_in_decimal() {
    assert_eq!(pos_to_text(-1), "-1");
    assert_eq!(pos_to_text(0), "0");
    assert_eq!(pos_to_text(7), "7");
    assert_eq!(pos_to_text(10), "10");
    assert_eq!(pos_to_text(1234567890), "1234567890");
    assert_eq!(pos_to_text(-409), "-409");
    assert_eq!(pos_to_text(i64::MAX), "9223372036854775807");
    assert_eq!(pos_to_text(i64::MIN), "-9223372036854775808");
}

#[test]
fn positions_are_read_back() {
    for v in [-1i64, 0, 1, 9, 10, 99, 100, 65535, -65536, i64::MAX, i64::MIN, i64::MIN + 1] {
        assert_eq!(pos_from_text(&pos_to_text(v)), Some(v));
        assert_eq!(pos_to_text(v), v.to_string());
    }
}

#[test]
fn positions_in_another_spelling_are_refused() {
    assert_eq!(pos_from_text(""), None);
    assert_eq!(pos_from_text("-"), None);
    assert_eq!(pos_from_text("+1"), None);
    assert_eq!(pos_from_text("01"), None);
    assert_eq!(pos_from_text("00"), None);
    assert_eq!(pos_from_text("-0"), None);
    assert_eq!(pos_from_text("-01"), None);
    assert_eq!(pos_from_text("--1"), None);
    assert_eq!(pos_from_text("1 "), None);
    assert_eq!(pos_from_text(" 1"), None);
    assert_eq!(pos_from_text("1a"), None);
    assert_eq!(pos_from_text("٣"), None);
    assert_eq!(pos_from_text("0x10"), None);
}

#[test]
fn positions_out_of_range_are_refused() {
    assert_eq!(pos_from_text("9223372036854775807"), Some(i64::MAX));
    assert_eq!(pos_from_text("9223372036854775808"), None);
    assert_eq!(pos_from_text("-9223372036854775808"), Some(i64::MIN));
    assert_eq!(pos_from_text("-9223372036854775809"), None);
    assert_eq!(pos_from_text("18446744073709551615"), None);
    assert_eq!(pos_from_text("18446744073709551616"), None);
    assert_eq!(pos_from_text("99999999999999999999999999999999"), None);
    assert_eq!(pos_from_text(&"9".repeat(5000)), None);
}
