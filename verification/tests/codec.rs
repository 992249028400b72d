use sibsecsh::codec::{b64_to_bytes, bytes_to_b64};

#[test]
fn decode_rfc_vectors() {
    assert_eq!(b64_to_bytes(""), Some(vec![]));
    assert_eq!(b64_to_bytes("MY======"), Some(b"f".to_vec()));
    assert_eq!(b64_to_bytes("MZXQ===="), Some(b"fo".to_vec()));
    assert_eq!(b64_to_bytes("MZXW6==="), Some(b"foo".to_vec()));
    assert_eq!(b64_to_bytes("MZXW6YQ="), Some(b"foob".to_vec()));
    assert_eq!(b64_to_bytes("MZXW6YTB"), Some(b"fooba".to_vec()));
    assert_eq!(b64_to_bytes("MZXW6YTBOI======"), Some(b"foobar".to_vec()));
}

#[test]
fn decode_is_case_insensitive() {
    assert_eq!(b64_to_bytes("mzxw6ytboi======"), Some(b"foobar".to_vec()));
    assert_eq!(b64_to_bytes("MzXw6yTbOi======"), Some(b"foobar".to_vec()));
}

#[test]
fn decode_rejects_bad_characters() {
    assert_eq!(b64_to_bytes("MZX W6==="), None);
    assert_eq!(b64_to_bytes("MZXW0==="), None);
    assert_eq!(b64_to_bytes("MZXW1==="), None);
    assert_eq!(b64_to_bytes("MZXW8==="), None);
    assert_eq!(b64_to_bytes("MZ=W6==="), None);
}

#[test]
fn decode_rejects_bad_padding_counts() {
    assert_eq!(b64_to_bytes("MZXW6M=="), None);
    assert_eq!(b64_to_bytes("MZX====="), None);
    assert_eq!(b64_to_bytes("M======="), None);
}

#[test]
fn encode_rfc_vectors() {
    assert_eq!(bytes_to_b64(&vec![]), String::from(""));
    assert_eq!(bytes_to_b64(&b"f".to_vec()), String::from("MY======"));
    assert_eq!(bytes_to_b64(&b"fo".to_vec()), String::from("MZXQ===="));
    assert_eq!(bytes_to_b64(&b"foo".to_vec()), String::from("MZXW6==="));
    assert_eq!(bytes_to_b64(&b"foob".to_vec()), String::from("MZXW6YQ="));
    assert_eq!(bytes_to_b64(&b"fooba".to_vec()), String::from("MZXW6YTB"));
    assert_eq!(bytes_to_b64(&b"foobar".to_vec()), String::from("MZXW6YTBOI======"));
}

#[test]
fn round_trip_restores_secret_bytes() {
    let secrets: Vec<Vec<u8>> = vec![
        b"12345678901234567890".to_vec(),
        vec![],
        vec![0],
        vec![255, 0, 128, 7],
        (0u8..=255).collect(),
    ];
    for s in secrets {
        assert_eq!(b64_to_bytes(&bytes_to_b64(&s)), Some(s));
    }
}

#[test]
fn known_totp_secret_decodes_to_reference_bytes() {
    let decoded = b64_to_bytes("GEZDGNBVGY3TQOJQGEZDGNBVGY3TQOJQ");
    assert_eq!(decoded, Some(b"12345678901234567890".to_vec()));
}
