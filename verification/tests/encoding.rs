use q2::encoding::{irc_eq_bytes, irc_lower_bytes, Encoding, IrcEncoding};

#[test]
fn casemap_lowers_letters_and_brackets() {
    assert_eq!(irc_lower_bytes(b"ABCZ[\\]^_"), b"abcz{|}^_".to_vec());
    assert_eq!(irc_lower_bytes(b"nick123"), b"nick123".to_vec());
}

#[test]
fn irc_equality_matches_lowercase_equality() {
    // Equal exactly when the casemapped forms agree, byte for byte.
    assert!(irc_eq_bytes(b"NICK[]", b"nick{}"));
    assert!(irc_eq_bytes(b"WiZ\\", b"wIz|"));
    assert!(!irc_eq_bytes(b"a^", b"a~"));
    assert!(!irc_eq_bytes(b"abc", b"abcd"));
    let a: Vec<u8> = b"#Twilight_zone".to_vec();
    let b: Vec<u8> = b"#twilight_ZONE".to_vec();
    assert!(a.irc_equal(&b));
    assert_eq!(a.irc_lowercase(), b.irc_lowercase());
}

#[test]
fn decode_keeps_valid_utf8() {
    let e = Encoding::new();
    assert_eq!(e.decode(b"caf\xc3\xa9"), "caf\u{e9}".to_string());
}

#[test]
fn decode_replaces_invalid_bytes() {
    let e = Encoding::new();
    assert_eq!(e.decode(b"f\xffo"), "f\u{fffd}o".to_string());
}

#[test]
fn encode_yields_utf8_bytes() {
    let e = Encoding::new();
    assert_eq!(e.encode(&"caf\u{e9}".to_string()), b"caf\xc3\xa9".to_vec());
}
