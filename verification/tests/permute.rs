use baseperm::{permute, Base32, Base64, Base64Urlsafe};

#[test]
fn test_permute_base64() {
    // 8 bytes (4 pad), 16 (2 pad), 24 (0 pad)
    let strings = vec![("f", 4), ("fo", 2), ("foo", 0)];
    for (string, pad) in strings.iter() {
        let input = base64::encode(string);
        let results = permute(&input, &Base64 {}).unwrap();

        assert_eq!(results.len(), 2_usize.pow(*pad));
    }
}

#[test]
fn test_permute_base64_urlsafe() {
    // 8 bytes (4 pad), 16 (2 pad), 24 (0 pad)
    let strings = vec![("f", 4), ("fo", 2), ("foo", 0)];
    for (string, pad) in strings.iter() {
        let input = base64::encode(string);
        let results = permute(&input, &Base64 {}).unwrap();

        assert_eq!(results.len(), 2_usize.pow(*pad));
    }
}

#[test]
fn test_permute_base32() {
    // 8 bytes (2 pad), 16 (4 pad), 24 (1 pad), 32 (3 pad), 40 (0 pad)
    let strings = vec![("f", 2), ("fo", 4), ("foo", 1), ("fooo", 3), ("foooo", 0)];
    for (string, pad) in strings.iter() {
        let input = base32::encode(
            base32::Alphabet::RFC4648 { padding: true },
            string.as_bytes(),
        );
        let results = permute(&input, &Base32 {}).unwrap();

        assert_eq!(results.len(), 2_usize.pow(*pad));
    }
}

#[test]
fn round_trip_base64() {
    // The crate's default decoder insists on zeroed trailing bits, which is
    // exactly what the permutations vary; a decoder that discards them, as
    // most validators do, recovers the same payload from every result.
    let forgiving = base64::STANDARD.decode_allow_trailing_bits(true);
    for payload in ["f", "fo", "foo", "foob", "fooba", "foobar"] {
        let input = base64::encode(payload);
        let results = permute(&input, &Base64 {}).unwrap();
        assert!(!results.is_empty());
        for r in results.iter() {
            assert_eq!(
                base64::decode_config(r, forgiving).unwrap(),
                payload.as_bytes()
            );
        }
    }
}

#[test]
fn round_trip_base64_urlsafe() {
    let forgiving = base64::URL_SAFE.decode_allow_trailing_bits(true);
    for payload in [&[0xffu8][..], &[0xff, 0xfe], &[0xff, 0xfe, 0xfd]] {
        let input = base64::encode_config(payload, base64::URL_SAFE);
        let results = permute(&input, &Base64Urlsafe {}).unwrap();
        assert!(!results.is_empty());
        for r in results.iter() {
            assert_eq!(base64::decode_config(r, forgiving).unwrap(), payload);
        }
    }
}

#[test]
fn round_trip_base32() {
    let alphabet = base32::Alphabet::RFC4648 { padding: true };
    for payload in ["f", "fo", "foo", "fooo", "foooo"] {
        let input = base32::encode(alphabet, payload.as_bytes());
        let results = permute(&input, &Base32 {}).unwrap();
        assert!(!results.is_empty());
        for r in results.iter() {
            assert_eq!(base32::decode(alphabet, r).unwrap(), payload.as_bytes());
        }
    }
}

#[test]
fn alignment_suffix_unchanged() {
    // base64 of "f" is "Zg==": every result keeps the two-character suffix.
    let results = permute("Zg==", &Base64 {}).unwrap();
    assert_eq!(results.len(), 16);
    for r in results.iter() {
        assert_eq!(r.len(), 4);
        assert_eq!(&r[2..], "==");
        assert!(!r[..2].contains('='));
    }
}

#[test]
fn base64_exact_enumeration() {
    // base64 of "f": four slack bits vary the final body symbol 'g' (index 32)
    // over indices 32..48, in ascending order.
    let results = permute("Zg==", &Base64 {}).unwrap();
    let expected = vec![
        "Zg==", "Zh==", "Zi==", "Zj==", "Zk==", "Zl==", "Zm==", "Zn==", "Zo==", "Zp==", "Zq==",
        "Zr==", "Zs==", "Zt==", "Zu==", "Zv==",
    ];
    assert_eq!(results, expected);
}

#[test]
fn base32_exact_enumeration_one_byte() {
    // base32 of "f": two slack bits vary 'Y' (index 24) over indices 24..28.
    let results = permute("MY======", &Base32 {}).unwrap();
    let expected = vec!["MY======", "MZ======", "M2======", "M3======"];
    assert_eq!(results, expected);
}

#[test]
fn base32_exact_enumeration_three_bytes() {
    // base32 of "foo": one slack bit varies '6' (index 30) over indices 30..32.
    let results = permute("MZXW6===", &Base32 {}).unwrap();
    let expected = vec!["MZXW6===", "MZXW7==="];
    assert_eq!(results, expected);
}

#[test]
fn ascending_substituted_indices() {
    let alphabet = "ABCDEFGHIJKLMNOPQRSTUVWXYZabcdefghijklmnopqrstuvwxyz0123456789+/";
    let results = permute("Zm8=", &Base64 {}).unwrap();
    assert_eq!(results.len(), 4);
    let mut last_index: Option<usize> = None;
    for r in results.iter() {
        let substituted = r.chars().nth(2).unwrap();
        let index = alphabet.find(substituted).unwrap();
        if let Some(prev) = last_index {
            assert!(prev < index);
        }
        last_index = Some(index);
    }
}

#[test]
fn zero_slack_returns_input_alone() {
    // base64 of "foo" has no slack bits.
    let results = permute("Zm9v", &Base64 {}).unwrap();
    assert_eq!(results, vec!["Zm9v"]);
    // base32 of "foooo" has no slack bits either.
    let results = permute("MZXW633P", &Base32 {}).unwrap();
    assert_eq!(results, vec!["MZXW633P"]);
}

#[test]
fn undecodable_input_fails() {
    assert!(permute("!!!!", &Base64 {}).is_err());
    assert!(permute("A", &Base64 {}).is_err());
    assert!(permute("====", &Base64 {}).is_err());
    assert!(permute("Zg+=", &Base64Urlsafe {}).is_err());
    assert!(permute("1", &Base32 {}).is_err());
    assert!(permute("é", &Base32 {}).is_err());
}

#[test]
fn decodable_but_foreign_last_symbol_fails() {
    // base32's decoder accepts lower case, but a lower-case final body symbol
    // has no position in the contract's alphabet.
    assert!(permute("my======", &Base32 {}).is_err());
}

#[test]
fn empty_input_yields_no_results() {
    assert_eq!(permute("", &Base64 {}).unwrap().len(), 0);
    assert_eq!(permute("", &Base32 {}).unwrap().len(), 0);
}

#[test]
fn decode_error_message() {
    let err = permute("!!!!", &Base64 {}).unwrap_err();
    assert_eq!(err.message(), "couldn't decode input");
}
