use g3_providers::completion::parse_completion;
use g3_providers::event::{decode_event, decode_payload, line_payload, Payload, Usage};
use g3_providers::json::{get_field, parse_u64, Json};

fn text(s: &str) -> Json {
    Json::Str(s.to_string())
}

#[test]
fn parse_u64_reads_plain_digits() {
    assert_eq!(parse_u64("0"), Some(0));
    assert_eq!(parse_u64("4096"), Some(4096));
    assert_eq!(parse_u64("18446744073709551615"), Some(u64::MAX));
    assert_eq!(parse_u64("18446744073709551616"), None);
    assert_eq!(parse_u64(""), None);
    assert_eq!(parse_u64("12a"), None);
    assert_eq!(parse_u64("-1"), None);
    assert_eq!(parse_u64("1.5"), None);
}

#[test]
fn get_field_skips_null_and_non_objects() {
    let j = Json::Object(vec![
        ("a".to_string(), Json::Null),
        ("b".to_string(), Json::Bool(true)),
    ]);
    assert_eq!(get_field(&j, "a"), None);
    assert_eq!(get_field(&j, "b"), Some(&Json::Bool(true)));
    assert_eq!(get_field(&j, "c"), None);
    assert_eq!(get_field(&Json::Array(vec![]), "a"), None);
}

#[test]
fn line_payload_needs_the_data_prefix() {
    assert_eq!(line_payload(b"  data: {\"a\":1}\r"), Some("{\"a\":1}".to_string()));
    assert_eq!(line_payload(b"data:{\"a\":1}"), None);
    assert_eq!(line_payload(b"event: x"), None);
    assert_eq!(line_payload(b""), None);
    assert_eq!(line_payload(&[0xc3]), None);
    assert_eq!(line_payload("\u{a0}data: é\u{3000}".as_bytes()), Some("é".to_string()));
}

#[test]
fn payload_kinds() {
    assert!(matches!(decode_payload("[DONE]"), Payload::Sentinel));
    assert!(matches!(decode_payload("[DONE] "), Payload::Skip));
    assert!(matches!(decode_payload("not json"), Payload::Skip));
    assert!(matches!(decode_payload("[1,2]"), Payload::Skip));
    match decode_payload(r#"{"choices":[{"delta":{"content":"hi"}}],"usage":null}"#) {
        Payload::Event(e) => {
            assert_eq!(e.contents, vec!["hi".to_string()]);
            assert!(e.tool_calls.is_empty());
            assert_eq!(e.usage, None);
        }
        other => panic!("expected an event: {:?}", other),
    }
}

#[test]
fn decode_event_reads_tool_calls_and_usage() {
    let j = Json::Object(vec![
        (
            "choices".to_string(),
            Json::Array(vec![Json::Object(vec![(
                "delta".to_string(),
                Json::Object(vec![(
                    "tool_calls".to_string(),
                    Json::Array(vec![Json::Object(vec![
                        ("index".to_string(), Json::Number("3".to_string())),
                        ("id".to_string(), text("x")),
                        (
                            "function".to_string(),
                            Json::Object(vec![("arguments".to_string(), text("{"))]),
                        ),
                    ])]),
                )]),
            )])]),
        ),
        (
            "usage".to_string(),
            Json::Object(vec![
                ("prompt_tokens".to_string(), Json::Number("1".to_string())),
                ("completion_tokens".to_string(), Json::Number("2".to_string())),
                ("total_tokens".to_string(), Json::Number("3".to_string())),
            ]),
        ),
    ]);
    let e = decode_event(&j).unwrap();
    assert!(e.contents.is_empty());
    assert_eq!(e.tool_calls.len(), 1);
    assert_eq!(e.tool_calls[0].index, 3);
    assert_eq!(e.tool_calls[0].id, Some("x".to_string()));
    assert_eq!(e.tool_calls[0].name, None);
    assert_eq!(e.tool_calls[0].arguments, Some("{".to_string()));
    assert_eq!(e.usage, Some(Usage { prompt_tokens: 1, completion_tokens: 2, total_tokens: 3 }));
}

#[test]
fn decode_event_rejects_wrong_shapes() {
    assert!(decode_event(&Json::Null).is_none());
    assert!(decode_event(&Json::Object(vec![])).is_none());
    let bad_index = Json::Object(vec![(
        "choices".to_string(),
        Json::Array(vec![Json::Object(vec![(
            "delta".to_string(),
            Json::Object(vec![(
                "tool_calls".to_string(),
                Json::Array(vec![Json::Object(vec![("index".to_string(), text("0"))])]),
            )]),
        )])]),
    )]);
    assert!(decode_event(&bad_index).is_none());
}

#[test]
fn completion_document_gives_first_content_and_usage() {
    let body = r#"{"id":"x","choices":[{"message":{"role":"assistant","content":"test successful","tool_calls":[{"id":"t","type":"function","function":{"name":"f","arguments":"{}"}}]}},{"message":{"content":"second"}}],"usage":{"prompt_tokens":12,"completion_tokens":3,"total_tokens":15}}"#;
    let model = "m/one".to_string();
    let r = parse_completion(body, &model).unwrap();
    assert_eq!(r.content, "test successful");
    assert_eq!(r.usage, Usage { prompt_tokens: 12, completion_tokens: 3, total_tokens: 15 });
    assert_eq!(r.model, "m/one");
}

#[test]
fn completion_document_edge_cases() {
    let model = "m".to_string();
    let no_content = r#"{"choices":[{"message":{"content":null}}],"usage":{"prompt_tokens":1,"completion_tokens":0,"total_tokens":1}}"#;
    assert_eq!(parse_completion(no_content, &model).unwrap().content, "");
    let no_choices = r#"{"choices":[],"usage":{"prompt_tokens":1,"completion_tokens":0,"total_tokens":1}}"#;
    assert_eq!(parse_completion(no_choices, &model).unwrap().content, "");
    let no_usage = r#"{"choices":[{"message":{"content":"a"}}]}"#;
    assert!(parse_completion(no_usage, &model).is_none());
    let bad_call = r#"{"choices":[{"message":{"content":"a","tool_calls":[{"id":"t"}]}}],"usage":{"prompt_tokens":1,"completion_tokens":0,"total_tokens":1}}"#;
    assert!(parse_completion(bad_call, &model).is_none());
    assert!(parse_completion("not json", &model).is_none());
}
