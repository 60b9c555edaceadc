use slam_core::json::JsonValue;
use slam_core::llm_api::extract_text_from_response;

fn obj(fields: Vec<(&str, JsonValue)>) -> JsonValue {
    JsonValue::Obj(fields.into_iter().map(|(k, v)| (k.to_string(), v)).collect())
}

// the top-level content fallback applies only under a first-choice message
#[test]
fn content_fallback_needs_a_first_choice_message() {
    // no choices at all: the top-level content is not consulted
    let bare = obj(vec![("content", JsonValue::Str("hello".to_string()))]);
    assert!(extract_text_from_response(&bare).is_none());

    // a message without usable content falls back to the top-level string
    let with_msg = obj(vec![
        ("choices", JsonValue::Arr(vec![obj(vec![("message", JsonValue::Null)])])),
        ("content", JsonValue::Str("hello".to_string())),
    ]);
    assert_eq!(extract_text_from_response(&with_msg).unwrap(), "hello");
}

#[test]
fn string_message_content_wins_over_fallback() {
    let v = obj(vec![
        (
            "choices",
            JsonValue::Arr(vec![obj(vec![(
                "message",
                obj(vec![("content", JsonValue::Str("answer".to_string()))]),
            )])]),
        ),
        ("content", JsonValue::Str("fallback".to_string())),
    ]);
    assert_eq!(extract_text_from_response(&v).unwrap(), "answer");
}

#[test]
fn text_parts_join_with_newlines() {
    let parts = JsonValue::Arr(vec![
        obj(vec![("text", JsonValue::Str("a".to_string()))]),
        obj(vec![("kind", JsonValue::Str("image".to_string()))]),
        obj(vec![("text", JsonValue::Str("b".to_string()))]),
    ]);
    let v = obj(vec![(
        "choices",
        JsonValue::Arr(vec![obj(vec![("message", obj(vec![("content", parts)]))])]),
    )]);
    assert_eq!(extract_text_from_response(&v).unwrap(), "a\nb");
}
