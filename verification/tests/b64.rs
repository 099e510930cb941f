use base64::engine::general_purpose;
use base64::Engine as _;
use syllibot::b64::{b64_decode, b64_encode};

fn encode_string(bytes: &[u8]) -> String {
    String::from_utf8(b64_encode(&bytes.to_vec())).unwrap()
}

#[test]
fn encode_matches_reference_engine() {
    let cases: Vec<Vec<u8>> = vec![
        b"".to_vec(),
        b"f".to_vec(),
        b"fo".to_vec(),
        b"foo".to_vec(),
        b"foob".to_vec(),
        b"fooba".to_vec(),
        b"foobar".to_vec(),
        "Grüße, 世界!".as_bytes().to_vec(),
        vec![0, 1, 2, 253, 254, 255],
        (0u8..=255).collect(),
    ];
    for bytes in cases {
        assert_eq!(encode_string(&bytes), general_purpose::STANDARD.encode(&bytes));
    }
}

#[test]
fn round_trip_preserves_bytes() {
    let cases: Vec<Vec<u8>> = vec![
        b"".to_vec(),
        b"a".to_vec(),
        b"ab".to_vec(),
        b"abc".to_vec(),
        "non-ASCII UTF-8: čas, żółć, 音声".as_bytes().to_vec(),
        (0u8..=255).collect(),
    ];
    for bytes in cases {
        let encoded = b64_encode(&bytes);
        let decoded = b64_decode(&encoded).expect("canonical encoding must decode");
        assert_eq!(decoded, bytes);
    }
}

#[test]
fn decode_agrees_with_reference_engine() {
    let inputs: Vec<&[u8]> = vec![
        b"SGVsbG8gd29ybGQ=",
        b"QQ==",
        b"QUI=",
        b"QUJD",
        b"",
        b"////",
        b"++++",
    ];
    for input in inputs {
        let ours = b64_decode(&input.to_vec());
        let reference = general_purpose::STANDARD.decode(input).ok();
        assert_eq!(ours, reference);
    }
}

#[test]
fn decode_rejects_bad_input() {
    // wrong length
    assert_eq!(b64_decode(&b"QQ=".to_vec()), None);
    assert_eq!(b64_decode(&b"Q".to_vec()), None);
    // byte outside the alphabet
    assert_eq!(b64_decode(&b"QQ!=".to_vec()), None);
    // padding in a non-final position
    assert_eq!(b64_decode(&b"QQ==QQ==".to_vec()), None);
    // non-canonical: set bits under the padding
    assert_eq!(b64_decode(&b"QR==".to_vec()), None);
    assert_eq!(b64_decode(&b"QUJ=".to_vec()), None);
}

#[test]
fn decode_rejections_match_reference_engine() {
    let inputs: Vec<&[u8]> = vec![b"QQ=", b"QQ!=", b"QR==", b"QUJ=", b"====", b"AB=A"];
    for input in inputs {
        assert!(b64_decode(&input.to_vec()).is_none());
        assert!(general_purpose::STANDARD.decode(input).is_err());
    }
}
