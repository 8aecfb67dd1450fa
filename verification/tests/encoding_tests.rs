use gemini_client::encoding::utf8_valid;

#[test]
fn ascii_and_well_formed_multibyte_are_valid() {
    assert!(utf8_valid(b""));
    assert!(utf8_valid(b"plain ascii"));
    assert!(utf8_valid("héllo wörld".as_bytes()));
    assert!(utf8_valid("日本語".as_bytes()));
    assert!(utf8_valid("\u{1f600}".as_bytes()));
    assert!(utf8_valid(&[0xc2, 0x80]));
    assert!(utf8_valid(&[0xe0, 0xa0, 0x80]));
    assert!(utf8_valid(&[0xf4, 0x8f, 0xbf, 0xbf]));
}

#[test]
fn malformed_sequences_are_invalid() {
    // A lone continuation byte, a truncated sequence, a bad follower.
    assert!(!utf8_valid(&[0x80]));
    assert!(!utf8_valid(&[0xc3]));
    assert!(!utf8_valid(&[0xe2, 0x82]));
    assert!(!utf8_valid(&[0xc3, 0x28]));
    assert!(!utf8_valid(&[0xf8, 0x80, 0x80, 0x80, 0x80]));
    assert!(!utf8_valid(&[0xff]));
}

#[test]
fn overlong_encodings_are_invalid() {
    assert!(!utf8_valid(&[0xc0, 0xaf]));
    assert!(!utf8_valid(&[0xc1, 0xbf]));
    assert!(!utf8_valid(&[0xe0, 0x80, 0xaf]));
    assert!(!utf8_valid(&[0xf0, 0x80, 0x80, 0xaf]));
}

#[test]
fn surrogates_and_out_of_range_scalars_are_invalid() {
    assert!(!utf8_valid(&[0xed, 0xa0, 0x80]));
    assert!(!utf8_valid(&[0xed, 0xbf, 0xbf]));
    assert!(!utf8_valid(&[0xf4, 0x90, 0x80, 0x80]));
}

#[test]
fn validator_agrees_with_the_standard_library() {
    let samples: Vec<Vec<u8>> = vec![
        b"ok".to_vec(),
        vec![0xc0, 0xaf],
        vec![0xed, 0xa0, 0x80],
        "émoji \u{1f600}".as_bytes().to_vec(),
        vec![0xe2, 0x82, 0xac],
        vec![0xe2, 0x82],
        vec![0x7f, 0x80],
    ];
    for bytes in samples {
        assert_eq!(utf8_valid(&bytes), std::str::from_utf8(&bytes).is_ok());
    }
}
