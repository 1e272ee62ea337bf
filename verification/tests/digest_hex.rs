//! Hex formatting and parsing of digests, and the byte-slice conversions.

use bc_hash::digest::Digest;
use bc_hash::error::ErrorKind;

#[test]
fn new_is_zero_filled() {
    let d: Digest<32> = Digest::new();
    assert_eq!(d.len(), 32);
    assert!(d.as_slice().iter().all(|b| *b == 0));
    assert_eq!(
        d.to_hex(),
        "0000000000000000000000000000000000000000000000000000000000000000"
    );
}

#[test]
fn hex_round_trip() {
    let bytes: Vec<u8> = (0u32..32).map(|i| (i * 11 % 256) as u8).collect();
    let d: Digest<32> = Digest::from_bytes(&bytes).unwrap();
    let s = d.to_hex();
    assert_eq!(s.len(), 64);
    assert!(s.chars().all(|c| c.is_ascii_hexdigit() && !c.is_ascii_uppercase()));
    let back: Digest<32> = Digest::from_hex(&s).unwrap();
    assert!(back == d);
}

#[test]
fn from_hex_accepts_prefix_case_and_whitespace() {
    let canonical = "ba7816bf8f01cfea414140de5dae2223b00361a396177a9cb410ff61f20015ad";
    let d: Digest<32> = Digest::from_hex(canonical).unwrap();
    let with_prefix: Digest<32> =
        Digest::from_hex("0xba7816bf8f01cfea414140de5dae2223b00361a396177a9cb410ff61f20015ad")
            .unwrap();
    assert!(with_prefix == d);
    let upper: Digest<32> =
        Digest::from_hex("BA7816BF8F01CFEA414140DE5DAE2223B00361A396177A9CB410FF61F20015AD")
            .unwrap();
    assert!(upper == d);
    let padded: Digest<32> = Digest::from_hex(
        "  \t0Xba7816bf8f01cfea414140de5dae2223b00361a396177a9cb410ff61f20015ad\n ",
    )
    .unwrap();
    assert!(padded == d);
    assert_eq!(d.to_hex(), canonical);
}

#[test]
fn parse_goes_through_the_same_contract() {
    // The FromStr door carries from_hex's exact behaviour.
    let canonical = "ba7816bf8f01cfea414140de5dae2223b00361a396177a9cb410ff61f20015ad";
    let direct: Digest<32> = Digest::from_hex(canonical).unwrap();
    let parsed: Digest<32> = canonical.parse().unwrap();
    assert!(parsed == direct);
    let round: Digest<32> = direct.to_hex().parse().unwrap();
    assert!(round == direct);
    let err = "abcd".parse::<Digest<32>>().unwrap_err();
    assert_eq!(err.kind(), ErrorKind::StringTooShort);
    let err = "aabbccdg".parse::<Digest<4>>().unwrap_err();
    assert_eq!(err.kind(), ErrorKind::ParseError);
}

#[test]
fn exotic_whitespace_is_trimmed() {
    // Form feed, vertical tab, no-break space, ideographic space.
    let padded: Digest<4> = Digest::from_hex("\u{0C}\u{0B}aabbccdd\u{A0}\u{3000}").unwrap();
    let plain: Digest<4> = Digest::from_hex("aabbccdd").unwrap();
    assert!(padded == plain);
    let parsed: Digest<4> = "\u{2028}0xAABBCCDD\u{85}".parse().unwrap();
    assert!(parsed == plain);
}

#[test]
fn from_hex_rejects_bad_lengths_and_digits() {
    let short = Digest::<32>::from_hex("abcd");
    assert_eq!(short.unwrap_err().kind(), ErrorKind::StringTooShort);
    let long = Digest::<4>::from_hex("aabbccddee");
    assert_eq!(long.unwrap_err().kind(), ErrorKind::StringTooLong);
    let bad = Digest::<4>::from_hex("aabbccdg");
    assert_eq!(bad.unwrap_err().kind(), ErrorKind::ParseError);
    let empty = Digest::<4>::from_hex("");
    assert_eq!(empty.unwrap_err().kind(), ErrorKind::StringTooShort);
    // The prefix does not count toward the digits.
    let only_prefix = Digest::<4>::from_hex("0xaabbccd");
    assert_eq!(only_prefix.unwrap_err().kind(), ErrorKind::StringTooShort);
}

#[test]
fn from_bytes_checks_the_width() {
    let four: Digest<4> = Digest::from_bytes(&[1, 2, 3, 4]).unwrap();
    assert_eq!(four.to_hex(), "01020304");
    let too_short = Digest::<4>::from_bytes(&[1, 2, 3]);
    assert_eq!(too_short.unwrap_err().kind(), ErrorKind::SliceTooShort);
    let too_long = Digest::<4>::from_bytes(&[1, 2, 3, 4, 5]);
    assert_eq!(too_long.unwrap_err().kind(), ErrorKind::SliceTooLong);
}

#[test]
fn equality_is_value_equality() {
    let a: Digest<4> = Digest::from_bytes(&[9, 8, 7, 6]).unwrap();
    let b: Digest<4> = Digest::from_bytes(&[9, 8, 7, 6]).unwrap();
    let c: Digest<4> = Digest::from_bytes(&[9, 8, 7, 5]).unwrap();
    assert!(a == b);
    assert!(!(a == c));
    let d: Digest<4> = Digest::default();
    assert_eq!(d.to_hex(), "00000000");
}
