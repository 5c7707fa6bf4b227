use mmr_nostr::hash::{hash_eq, zero_hash, HASH_LEN};
use mmr_nostr::EventId;

#[test]
fn zero_digest_is_thirty_two_zero_bytes() {
    assert_eq!(HASH_LEN, 32);
    assert_eq!(zero_hash(), [0u8; 32]);
    assert_eq!(zero_hash().len(), HASH_LEN);
}

#[test]
fn digests_are_equal_when_every_byte_is() {
    let a = [0x5a; 32];
    assert!(hash_eq(&a, &[0x5a; 32]));
    for i in 0..32 {
        let mut b = a;
        b[i] ^= 1;
        assert!(!hash_eq(&a, &b));
        assert!(!hash_eq(&b, &a));
    }
}

#[test]
fn identifiers_are_equal_when_their_bytes_are() {
    let a = EventId([7u8; 32]);
    let mut bytes = [7u8; 32];
    assert!(a == EventId(bytes));
    bytes[31] = 8;
    assert!(a != EventId(bytes));
    bytes[31] = 7;
    bytes[0] = 6;
    assert!(a != EventId(bytes));
    assert_eq!(a, a.clone());
}
