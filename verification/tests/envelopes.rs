use api_dto::{from_json, to_json, ApiError, ApiItem, ApiList, Challenge, StatusCode};

#[test]
fn response_can_stringify() {
    let _ = to_json(&ApiItem::ok(vec!["0".to_string(), "1".to_string(), "2".to_string()]));
}

#[test]
fn response_can_parse_json() {
    let _: ApiItem<Vec<String>> = from_json(r#"{"statusCode":200,"item":["0","1","2"]}"#).unwrap();
}

#[test]
fn can_parse_json_items() {
    let json = r##"{"statusCode":200,"items":[{"id":"id","title":"#brown for 30 days","why":"- Stay brown for 30 days, and THEN back to green...! :\"}\r\n- Really, it makes me feel so tired sometimes...!\r\n- Cuz you promised yourself...!","note":"#DONE","startedAt":1662285000000000,"endAt":1664877000000000,"finished":false}]}"##;

    let _: ApiList<Challenge> = from_json(json).unwrap();
}

#[test]
fn item_ok_serializes_exactly() {
    let env = ApiItem::ok(vec!["0".to_string(), "1".to_string(), "2".to_string()]);
    let s = to_json(&env);
    assert_eq!(s, r#"{"statusCode":200,"item":["0","1","2"]}"#);
    let back: ApiItem<Vec<String>> = from_json(&s).unwrap();
    assert_eq!(back, env);
}

#[test]
fn item_round_trip_single_string() {
    let env = ApiItem::ok("hello".to_string());
    let s = to_json(&env);
    assert_eq!(s, r#"{"statusCode":200,"item":"hello"}"#);
    let back: ApiItem<String> = from_json(&s).unwrap();
    assert_eq!(back, env);
}

#[test]
fn list_ok_round_trip_empty() {
    let env: ApiList<String> = ApiList::ok(vec![]);
    let s = to_json(&env);
    assert_eq!(s, r#"{"statusCode":200,"items":[]}"#);
    let back: ApiList<String> = from_json(&s).unwrap();
    assert_eq!(back, env);
}

#[test]
fn list_of_challenges_decodes() {
    let json = r#"{"statusCode":200,"items":[{"id":"id","title":"t","why":"w","note":"n","startedAt":1662285000000,"endAt":1664877000000,"finished":false}]}"#;
    let list: ApiList<Challenge> = from_json(json).unwrap();
    assert_eq!(list.status_code.as_u16(), 200);
    assert_eq!(list.items.len(), 1);
    assert!(!list.items[0].finished);
    assert_eq!(list.items[0].id, "id");
    assert_eq!(list.items[0].start_at_ms.as_millis(), 1662285000000);
    assert_eq!(list.items[0].end_at_ms.as_millis(), 1664877000000);
}

#[test]
fn bad_request_has_status_and_messages() {
    let e = ApiError::bad_request(vec!["missing field".to_string()]);
    assert_eq!(e.status_code.as_u16(), 400);
    assert_eq!(e.errors, vec!["missing field".to_string()]);
}

#[test]
fn convenience_constructors_seed_a_message() {
    let cases = vec![
        (ApiError::unauthorized(), 401, "Unauthorized"),
        (ApiError::not_implemented(), 501, "Not Implemented"),
        (ApiError::not_found(), 404, "Not Found"),
        (ApiError::forbidden(), 403, "Forbidden"),
        (ApiError::unprocessable_entity(), 422, "Unprocessable Entity"),
        (ApiError::internal_server_error(), 500, "Internal Server Error"),
    ];
    for (e, code, phrase) in cases {
        assert_eq!(e.status_code.as_u16(), code);
        assert!(!e.errors.is_empty());
        assert_eq!(e.errors, vec![phrase.to_string()]);
        assert!(!e.with_ui);
    }
}

#[test]
fn from_status_unknown_code_has_empty_phrase() {
    let e = ApiError::from_status(StatusCode::from_u16(999));
    assert_eq!(e.status_code.as_u16(), 999);
    assert_eq!(e.errors, vec![String::new()]);
}

#[test]
fn from_message_keeps_the_message() {
    let e = ApiError::from_message("nope", StatusCode::from_u16(418));
    assert_eq!(e.status_code.as_u16(), 418);
    assert_eq!(e.errors, vec!["nope".to_string()]);
}

#[test]
fn append_error_appends_in_order() {
    let e = ApiError::bad_request(vec!["first".to_string()])
        .append_error("second".to_string())
        .append_error("third".to_string());
    assert_eq!(
        e.errors,
        vec!["first".to_string(), "second".to_string(), "third".to_string()]
    );
    assert_eq!(e.status_code.as_u16(), 400);
}

#[test]
fn with_ui_does_not_change_the_wire_text() {
    let plain = ApiError::not_found();
    let hinted = ApiError::not_found().with_ui();
    assert!(hinted.with_ui);
    assert_eq!(plain.to_json(), hinted.to_json());
    assert!(!hinted.to_json().contains("with_ui"));
    assert_eq!(
        hinted.to_json(),
        r#"{"statusCode":404,"errors":["Not Found"]}"#
    );
}

#[test]
fn error_round_trip_clears_the_ui_hint() {
    let e = ApiError::bad_request(vec!["a".to_string(), "b".to_string()]).with_ui();
    let back = ApiError::from_json(&e.to_json()).unwrap();
    assert_eq!(back.status_code.as_u16(), 400);
    assert_eq!(back.errors, e.errors);
    assert!(!back.with_ui);
}

#[test]
fn error_decode_rejects_bad_documents() {
    assert!(ApiError::from_json(r#"{"statusCode":400,"errors":[]} "#).is_err());
    assert!(ApiError::from_json(r#"{"statusCode":400}"#).is_err());
    assert!(ApiError::from_json(r#"{"statusCode":70000,"errors":["x"]}"#).is_err());
}

#[test]
fn status_code_boundaries() {
    let top: ApiItem<String> = from_json(r#"{"statusCode":65535,"item":"x"}"#).unwrap();
    assert_eq!(top.status_code.as_u16(), 65535);
    assert!(from_json::<ApiItem<String>>(r#"{"statusCode":65536,"item":"x"}"#).is_err());
}

#[test]
fn wire_text_agrees_with_a_general_json_parser() {
    let env = ApiItem::ok(vec!["a\"b".to_string(), "c".to_string()]);
    let s = to_json(&env);
    let v: serde_json::Value = serde_json::from_str(&s).unwrap();
    assert_eq!(v["statusCode"], serde_json::Value::from(200u64));
    assert_eq!(v["item"][0], serde_json::Value::from("a\"b"));
    assert_eq!(v["item"][1], serde_json::Value::from("c"));
}

#[test]
fn new_keeps_arbitrary_status_and_errors() {
    let e = ApiError::new(StatusCode::from_u16(503), vec![]);
    assert_eq!(e.status_code.as_u16(), 503);
    assert!(e.errors.is_empty());
    assert!(!e.with_ui);
}
