use syllibot::json::{json_escape_append, json_parse_string};

fn escape(s: &str) -> Vec<u8> {
    let mut out = Vec::new();
    json_escape_append(&mut out, s.as_bytes());
    out
}

fn parse(body: &[u8]) -> Option<Vec<u8>> {
    json_parse_string(&body.to_vec())
}

#[test]
fn escape_matches_reference_serializer() {
    let cases = vec![
        "",
        "plain text",
        "with \"quotes\" and \\backslashes\\",
        "controls: \n \r \t \x08 \x0c \x01 \x1f",
        "non-ASCII: čas żółć 音声 🎵",
    ];
    for s in cases {
        let reference = serde_json::to_string(s).unwrap();
        let reference_inner = &reference.as_bytes()[1..reference.len() - 1];
        assert_eq!(escape(s), reference_inner, "escaping of {:?}", s);
    }
}

#[test]
fn parse_inverts_reference_serializer() {
    let cases = vec![
        "",
        "Hello world",
        "quotes \" backslash \\ slash / newline \n tab \t",
        "accented: café, naïve",
        "emoji: 😀🎵",
    ];
    for s in cases {
        let body = serde_json::to_string(s).unwrap();
        let parsed = parse(body.as_bytes()).expect("serialized string must parse");
        assert_eq!(parsed, s.as_bytes(), "parsing of {:?}", body);
    }
}

#[test]
fn parse_handles_unicode_escapes() {
    assert_eq!(parse(r#""\u00e9""#.as_bytes()), Some("é".as_bytes().to_vec()));
    assert_eq!(parse(r#""\u0041""#.as_bytes()), Some(b"A".to_vec()));
    assert_eq!(parse(r#""\u20ac""#.as_bytes()), Some("€".as_bytes().to_vec()));
    // surrogate pair for U+1F600
    assert_eq!(parse(r#""\ud83d\ude00""#.as_bytes()), Some("😀".as_bytes().to_vec()));
    // upper-case hex digits
    assert_eq!(parse(r#""\u00E9""#.as_bytes()), Some("é".as_bytes().to_vec()));
}

#[test]
fn parse_accepts_surrounding_whitespace() {
    assert_eq!(parse(b"  \t\r\n \"ok\" \n "), Some(b"ok".to_vec()));
}

#[test]
fn parse_handles_short_escapes() {
    assert_eq!(
        parse(br#""a\"b\\c\/d\be\ff\ng\rh\ti""#),
        Some(b"a\"b\\c/d\x08e\x0cf\ng\rh\ti".to_vec())
    );
}

#[test]
fn escape_then_parse_round_trip() {
    let cases = vec![
        "",
        "plain",
        "\"\\\n\t\x01\x1f",
        "mixed \u{fc}n\u{ef}code \u{1f3b5} and \"quotes\"",
    ];
    for s in cases {
        let mut body = vec![b'"'];
        json_escape_append(&mut body, s.as_bytes());
        body.push(b'"');
        assert_eq!(json_parse_string(&body), Some(s.as_bytes().to_vec()), "case {:?}", s);
    }
}

#[test]
fn parse_rejects_non_strings() {
    assert_eq!(parse(b""), None);
    assert_eq!(parse(b"{}"), None);
    assert_eq!(parse(b"42"), None);
    assert_eq!(parse(b"null"), None);
    assert_eq!(parse(br#"["a"]"#), None);
}

#[test]
fn parse_rejects_malformed_strings() {
    // unterminated
    assert_eq!(parse(br#""abc"#), None);
    // trailing content after the closing quote
    assert_eq!(parse(br#""a" x"#), None);
    // raw control character inside the string
    assert_eq!(parse(b"\"a\nb\""), None);
    // unknown escape
    assert_eq!(parse(br#""\q""#), None);
    // truncated unicode escape
    assert_eq!(parse(br#""\u00""#), None);
    // lone surrogates
    assert_eq!(parse(br#""\ud83d""#), None);
    assert_eq!(parse(br#""\ude00""#), None);
    // high surrogate without a following escape
    assert_eq!(parse(br#""\ud83dx""#), None);
}

#[test]
fn parse_agrees_with_reference_parser_on_rejects() {
    let cases: Vec<&[u8]> = vec![
        br#""abc"#,
        b"\"a\nb\"",
        br#""\q""#,
        br#""\u00""#,
        br#""\ud83d""#,
        br#""\ude00""#,
    ];
    for body in cases {
        assert!(parse(body).is_none());
        assert!(serde_json::from_slice::<String>(body).is_err());
    }
}
