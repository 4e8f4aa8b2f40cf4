use api_dto::{from_json, to_json, Challenge, Directory, Timestamp};

fn sample_challenge() -> Challenge {
    Challenge {
        id: "_id".to_string(),
        title: "title".to_string(),
        why: "why".to_string(),
        note: "note".to_string(),
        start_at_ms: Timestamp::from_millis(0),
        end_at_ms: Timestamp::from_millis(0),
        finished: false,
    }
}

#[test]
fn challenge_can_stringify() {
    let _ = to_json(&sample_challenge());
}

#[test]
fn challenge_can_parse_json() {
    let _: Challenge = from_json(
        "{\"id\":\"_id\",\"title\":\"title\",\"why\":\"why\",\"note\":\"note\",\"startedAt\":0,\"endAt\":0,\"finished\":false}",
    )
    .unwrap();
}

#[test]
fn challenge_exact_wire_text() {
    let s = to_json(&sample_challenge());
    assert_eq!(
        s,
        "{\"id\":\"_id\",\"title\":\"title\",\"why\":\"why\",\"note\":\"note\",\"startedAt\":0,\"endAt\":0,\"finished\":false}"
    );
}

#[test]
fn challenge_round_trip() {
    let c = Challenge {
        id: "abc".to_string(),
        title: "a \"quoted\" title".to_string(),
        why: "line\nbreak\tand \\ slash".to_string(),
        note: String::new(),
        start_at_ms: Timestamp::from_millis(1662285000000),
        end_at_ms: Timestamp::from_millis(-5),
        finished: true,
    };
    let s = to_json(&c);
    let back: Challenge = from_json(&s).unwrap();
    assert_eq!(back, c);
}

#[test]
fn challenge_round_trip_control_chars() {
    let c = Challenge {
        id: "\u{1}\u{2}\u{1f}".to_string(),
        title: "t".to_string(),
        why: "w".to_string(),
        note: "n".to_string(),
        start_at_ms: Timestamp::from_millis(i64::MIN),
        end_at_ms: Timestamp::from_millis(i64::MAX),
        finished: false,
    };
    let s = to_json(&c);
    assert!(s.contains("\\u0001"));
    let back: Challenge = from_json(&s).unwrap();
    assert_eq!(back, c);
}

#[test]
fn timestamp_codec_round_trip() {
    let t = Timestamp::from_millis(1664877000000);
    assert_eq!(Timestamp::from_millis(t.as_millis()), t);
    assert_eq!(t.as_millis(), 1664877000000);
}

#[test]
fn directory_round_trip() {
    let d = Directory { children: vec!["a.txt".to_string(), "b".to_string(), "a.txt".to_string()] };
    let s = to_json(&d);
    assert_eq!(s, "{\"children\":[\"a.txt\",\"b\",\"a.txt\"]}");
    let back: Directory = from_json(&s).unwrap();
    assert_eq!(back, d);
}

#[test]
fn directory_empty_round_trip() {
    let d = Directory { children: vec![] };
    let s = to_json(&d);
    assert_eq!(s, "{\"children\":[]}");
    let back: Directory = from_json(&s).unwrap();
    assert_eq!(back, d);
}

#[test]
fn malformed_documents_are_rejected() {
    assert!(from_json::<Directory>("{\"children\":[\"a\"]} ").is_err());
    assert!(from_json::<Directory>("{\"children\":[\"a\"]").is_err());
    assert!(from_json::<Directory>("{\"kids\":[\"a\"]}").is_err());
    assert!(from_json::<Directory>("").is_err());
    assert!(from_json::<Challenge>("{\"id\":\"x\"}").is_err());
}

#[test]
fn string_escapes_parse() {
    let doc = "{\"children\":[\"a\\\"b\\\\c\\r\\n\\t\\/\\u0007\"]}";
    let d: Directory = from_json(doc).unwrap();
    assert_eq!(d.children, vec!["a\"b\\c\r\n\t/\u{7}".to_string()]);
}

#[test]
fn shapes_describe_the_wire_names() {
    let cs = api_dto::shape::challenge_shape();
    assert_eq!(cs.len(), 7);
    assert_eq!(cs[4].name, "start_at_ms");
    assert_eq!(cs[4].wire_name, "startedAt");
    assert_eq!(cs[4].kind, api_dto::shape::FieldKind::Milliseconds);
    let es = api_dto::shape::api_error_shape();
    assert_eq!(es.len(), 2);
    assert_eq!(es[0].wire_name, "statusCode");
    assert!(es.iter().all(|f| f.name != "with_ui"));
}
