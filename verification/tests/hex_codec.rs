use field_codecs::hex::{decode, decode_list, decode_opt, encode, encode_list, encode_opt,
    DecodeError};

#[test]
fn hex_writes_lowercase_pairs() {
    assert_eq!(encode(&vec![]), "");
    assert_eq!(encode(&vec![0x00]), "00");
    assert_eq!(encode(&vec![0x0a, 0xff]), "0aff");
    assert_eq!(encode(&vec![0x12, 0x34, 0xab, 0xcd]), "1234abcd");
}

#[test]
fn hex_round_trip() {
    let samples: Vec<Vec<u8>> = vec![
        vec![],
        vec![0x00],
        vec![0x7f, 0x80],
        vec![0xde, 0xad, 0xbe, 0xef],
        (0u8..=255u8).collect(),
    ];
    for b in samples {
        assert_eq!(decode(&encode(&b)).unwrap(), b);
    }
}

#[test]
fn hex_matches_reference_implementation() {
    let samples: Vec<Vec<u8>> = vec![vec![], vec![0x01, 0x23], (0u8..=255u8).collect()];
    for b in &samples {
        assert_eq!(encode(b), hex::encode(b));
    }
    assert_eq!(decode("00ff10").unwrap(), hex::decode("00ff10").unwrap());
    assert_eq!(decode("AbCd").unwrap(), hex::decode("AbCd").unwrap());
}

#[test]
fn hex_canonicalizes_uppercase_input() {
    let bytes = decode("AbCdEf").unwrap();
    assert_eq!(encode(&bytes), "abcdef");
}

#[test]
fn hex_rejects_odd_length() {
    match decode("abc") {
        Err(DecodeError::OddLength { input }) => assert_eq!(input, "abc"),
        other => panic!("expected an odd-length error, got {:?}", other),
    }
}

#[test]
fn hex_rejects_non_hex_digit() {
    match decode("zz") {
        Err(DecodeError::InvalidChar { input, index }) => {
            assert_eq!(input, "zz");
            assert_eq!(index, 0);
        },
        other => panic!("expected an invalid-character error, got {:?}", other),
    }
    match decode("0g") {
        Err(DecodeError::InvalidChar { index, .. }) => assert_eq!(index, 1),
        other => panic!("expected an invalid-character error, got {:?}", other),
    }
}

#[test]
fn hex_optional_distinguishes_absence_from_value() {
    assert_eq!(encode_opt(&None), None);
    assert_eq!(encode_opt(&Some(vec![0x0a, 0xff])), Some("0aff".to_owned()));
    assert_eq!(decode_opt(None).unwrap(), None);
    assert_eq!(decode_opt(Some("0aff".to_owned())).unwrap(), Some(vec![0x0a, 0xff]));
    assert!(decode_opt(Some("xy".to_owned())).is_err());
}

#[test]
fn hex_list_round_trip_and_fail_fast() {
    let data = vec![vec![0x01], vec![], vec![0xff, 0x00]];
    let wire = encode_list(&data);
    assert_eq!(wire, vec!["01".to_owned(), "".to_owned(), "ff00".to_owned()]);
    assert_eq!(decode_list(&wire).unwrap(), data);

    let bad = vec!["01".to_owned(), "q".to_owned(), "ff".to_owned()];
    match decode_list(&bad) {
        Err(DecodeError::OddLength { input }) => assert_eq!(input, "q"),
        other => panic!("expected the whole read to fail on the second element, got {:?}", other),
    }
}
