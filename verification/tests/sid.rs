use engineio_rs::socket::{fallback_sid, generate_sid};
use std::collections::HashSet;

fn is_sid_char(c: char) -> bool {
    c.is_ascii_uppercase() || c.is_ascii_lowercase() || c.is_ascii_digit()
}

#[test]
fn generated_sid_is_twenty_alphanumerics() {
    for _ in 0..100 {
        let sid = generate_sid();
        assert_eq!(sid.chars().count(), 20);
        assert!(sid.chars().all(is_sid_char));
    }
}

#[test]
fn ten_thousand_sids_are_pairwise_distinct() {
    let mut seen: HashSet<String> = HashSet::new();
    for _ in 0..10000 {
        let sid = generate_sid();
        assert_eq!(sid.chars().count(), 20);
        assert!(sid.chars().all(is_sid_char));
        assert!(seen.insert(sid), "generated session id repeated");
    }
    assert_eq!(seen.len(), 10000);
}

#[test]
fn fallback_sids_are_padded_decimals() {
    assert_eq!(fallback_sid(0), "00000000000000000000");
    assert_eq!(fallback_sid(7), "00000000000000000007");
    assert_eq!(fallback_sid(123), "00000000000000000123");
    let a = fallback_sid(41);
    let b = fallback_sid(42);
    assert_ne!(a, b);
    assert_eq!(b.len(), 20);
}
