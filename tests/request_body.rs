use g3_providers::json::{get_field, Json};
use g3_providers::request::{
    convert_messages, convert_tools, Message, MessageRole, ProviderPreferences, RequestSettings,
    Tool,
};

fn text(s: &str) -> Json {
    Json::Str(s.to_string())
}

fn has_member(j: &Json, key: &str) -> bool {
    match j {
        Json::Object(m) => m.iter().any(|(k, _)| k == key),
        _ => false,
    }
}

fn settings(prefs: Option<ProviderPreferences>) -> RequestSettings {
    RequestSettings {
        model: "meta/llama-3-70b".to_string(),
        max_tokens: Some(4096),
        provider_preferences: prefs,
    }
}

#[test]
fn test_provider_preferences_serialization() {
    let preferences = ProviderPreferences {
        order: Some(vec!["Anthropic".to_string(), "OpenAI".to_string()]),
        allow_fallbacks: Some(true),
        require_parameters: Some(false),
    };

    let json = preferences.to_json();

    assert!(get_field(&json, "order").is_some());
    assert_eq!(get_field(&json, "allow_fallbacks").unwrap(), &Json::Bool(true));
    assert_eq!(get_field(&json, "require_parameters").unwrap(), &Json::Bool(false));
}

#[test]
fn test_provider_preferences_partial_serialization() {
    let preferences = ProviderPreferences {
        order: None,
        allow_fallbacks: Some(true),
        require_parameters: None,
    };

    let json = preferences.to_json();

    assert!(!has_member(&json, "order"), "None fields should be omitted");
    assert!(get_field(&json, "allow_fallbacks").is_some());
    assert!(!has_member(&json, "require_parameters"), "None fields should be omitted");
}

#[test]
fn preferences_order_keeps_its_entries() {
    let preferences = ProviderPreferences {
        order: Some(vec!["Anthropic".to_string(), "OpenAI".to_string()]),
        allow_fallbacks: None,
        require_parameters: None,
    };
    assert_eq!(
        preferences.to_json(),
        Json::Object(vec![(
            "order".to_string(),
            Json::Array(vec![text("Anthropic"), text("OpenAI")])
        )])
    );
}

#[test]
fn messages_carry_role_and_content() {
    let messages = vec![
        Message::new(MessageRole::System, "be brief".to_string()),
        Message::new(MessageRole::User, "hi".to_string()),
        Message::new(MessageRole::Assistant, "hello".to_string()),
    ];
    let out = convert_messages(&messages);
    assert_eq!(out.len(), 3);
    assert_eq!(
        out[0],
        Json::Object(vec![
            ("role".to_string(), text("system")),
            ("content".to_string(), text("be brief")),
        ])
    );
    assert_eq!(get_field(&out[1], "role"), Some(&text("user")));
    assert_eq!(get_field(&out[2], "role"), Some(&text("assistant")));
}

#[test]
fn tools_are_wrapped_as_functions() {
    let tools = vec![Tool {
        name: "get_weather".to_string(),
        description: "Get the weather".to_string(),
        input_schema: Json::Object(vec![("type".to_string(), text("object"))]),
    }];
    let out = convert_tools(tools);
    assert_eq!(
        out,
        vec![Json::Object(vec![
            ("type".to_string(), text("function")),
            (
                "function".to_string(),
                Json::Object(vec![
                    ("name".to_string(), text("get_weather")),
                    ("description".to_string(), text("Get the weather")),
                    (
                        "parameters".to_string(),
                        Json::Object(vec![("type".to_string(), text("object"))])
                    ),
                ])
            ),
        ])]
    );
}

#[test]
fn streaming_body_asks_for_usage() {
    let messages = vec![Message::new(MessageRole::User, "Count".to_string())];
    let body = settings(None).create_request_body(&messages, None, true, Some(50));
    assert_eq!(get_field(&body, "model"), Some(&text("meta/llama-3-70b")));
    assert_eq!(get_field(&body, "stream"), Some(&Json::Bool(true)));
    assert_eq!(get_field(&body, "max_tokens"), Some(&Json::Number("50".to_string())));
    assert_eq!(
        get_field(&body, "stream_options"),
        Some(&Json::Object(vec![("include_usage".to_string(), Json::Bool(true))]))
    );
    assert!(!has_member(&body, "tools"));
    assert!(!has_member(&body, "provider"));
    match get_field(&body, "messages") {
        Some(Json::Array(ms)) => assert_eq!(ms.len(), 1),
        other => panic!("messages missing: {:?}", other),
    }
}

#[test]
fn plain_body_uses_default_limit_tools_and_preferences() {
    let prefs = ProviderPreferences {
        order: None,
        allow_fallbacks: Some(false),
        require_parameters: None,
    };
    let tools = vec![Tool {
        name: "t".to_string(),
        description: "d".to_string(),
        input_schema: Json::Null,
    }];
    let body = settings(Some(prefs)).create_request_body(&vec![], Some(tools), false, None);
    assert_eq!(get_field(&body, "stream"), Some(&Json::Bool(false)));
    assert_eq!(get_field(&body, "max_tokens"), Some(&Json::Number("4096".to_string())));
    assert!(!has_member(&body, "stream_options"));
    assert_eq!(
        get_field(&body, "provider"),
        Some(&Json::Object(vec![("allow_fallbacks".to_string(), Json::Bool(false))]))
    );
    match get_field(&body, "tools") {
        Some(Json::Array(ts)) => assert_eq!(ts.len(), 1),
        other => panic!("tools missing: {:?}", other),
    }
}

#[test]
fn empty_tool_list_and_no_limit_are_left_out() {
    let s = RequestSettings { model: "m".to_string(), max_tokens: None, provider_preferences: None };
    let body = s.create_request_body(&vec![], Some(vec![]), false, None);
    assert!(!has_member(&body, "tools"));
    assert!(!has_member(&body, "max_tokens"));
}
