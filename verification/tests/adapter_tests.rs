use chatcore::adapter::{
    chat_request_body, classify_event, completions_url, drain_step, handshake_result,
    status_is_success, EventClass,
};
use chatcore::model::{ChatMessagePayload, ChatRequestPayload};
use chatcore::text::trim_whitespace;

#[test]
fn handshake_accepts_exactly_the_success_range() {
    assert!(!status_is_success(199));
    assert!(status_is_success(200));
    assert!(status_is_success(299));
    assert!(!status_is_success(300));
    assert!(handshake_result(204, "ignored").is_ok());
}

#[test]
fn handshake_failure_carries_status_and_body() {
    match handshake_result(404, "no such model") {
        Err(e) => {
            assert_eq!(e.kind_name(), "BadRequest");
            assert_eq!(e.detail(), "API error: 404 no such model");
        }
        Ok(_) => panic!("a non-success status must fail the call"),
    }
    match handshake_result(500, "") {
        Err(e) => assert_eq!(e.detail(), "API error: 500 "),
        Ok(_) => panic!("a non-success status must fail the call"),
    }
}

#[test]
fn drain_stops_on_sentinel_and_transport_fault() {
    let done = drain_step(Ok("[DONE]".to_string()));
    assert!(done.item.is_none());
    assert!(!done.more);
    let fault = drain_step(Err("connection reset".to_string()));
    assert!(!fault.more);
    match fault.item {
        Some(chatcore::model::StreamItem::Failure(m)) => {
            assert_eq!(m, "stream error: connection reset")
        }
        _ => panic!("a transport fault must yield an inline error item"),
    }
}

#[test]
fn drain_records_fragments_and_inline_parse_errors() {
    let frag = drain_step(Ok("{\"choices\":[{\"delta\":{\"content\":\"Hi\"}}]}".to_string()));
    assert!(frag.more);
    match frag.item {
        Some(chatcore::model::StreamItem::Chunk(c)) => assert_eq!(c, "Hi"),
        _ => panic!("a content fragment must be recorded"),
    }
    let skip = drain_step(Ok("{\"choices\":[{\"delta\":{}}]}".to_string()));
    assert!(skip.item.is_none());
    assert!(skip.more);
    let bad = drain_step(Ok("not json".to_string()));
    assert!(bad.more);
    match bad.item {
        Some(chatcore::model::StreamItem::Failure(m)) => {
            assert_eq!(m, "failed to parse event data: not json")
        }
        _ => panic!("a malformed event must yield an inline error item"),
    }
}

#[test]
fn request_payload_serializes_itself() {
    let payload = ChatRequestPayload {
        model: "m".to_string(),
        messages: vec![ChatMessagePayload { role: "user".to_string(), content: "hi".to_string() }],
        stream: false,
    };
    assert_eq!(
        payload.to_json(),
        "{\"model\":\"m\",\"messages\":[{\"role\":\"user\",\"content\":\"hi\"}],\"stream\":false}"
    );
}

#[test]
fn url_with_version_suffix_appends_path() {
    assert_eq!(completions_url("https://x/v1"), "https://x/v1/chat/completions");
}

#[test]
fn url_without_version_suffix_inserts_it() {
    assert_eq!(completions_url("https://x"), "https://x/v1/chat/completions");
}

#[test]
fn url_trailing_slashes_are_dropped() {
    assert_eq!(completions_url("https://x/v1/"), "https://x/v1/chat/completions");
    assert_eq!(completions_url("https://x///"), "https://x/v1/chat/completions");
}

#[test]
fn url_version_must_be_its_own_segment() {
    assert_eq!(completions_url("https://xv1"), "https://xv1/v1/chat/completions");
}

#[test]
fn url_empty_base_still_forms_a_path() {
    assert_eq!(completions_url(""), "/v1/chat/completions");
    assert_eq!(completions_url("/"), "/v1/chat/completions");
}

#[test]
fn request_body_exact_layout() {
    let messages = vec![ChatMessagePayload {
        role: "user".to_string(),
        content: "hi".to_string(),
    }];
    let body = chat_request_body("m", &messages, true);
    assert_eq!(body, "{\"model\":\"m\",\"messages\":[{\"role\":\"user\",\"content\":\"hi\"}],\"stream\":true}");
}

#[test]
fn request_body_multiple_messages_and_no_stream() {
    let messages = vec![
        ChatMessagePayload { role: "system".to_string(), content: "a".to_string() },
        ChatMessagePayload { role: "assistant".to_string(), content: "b".to_string() },
    ];
    let body = chat_request_body("gpt", &messages, false);
    assert_eq!(
        body,
        "{\"model\":\"gpt\",\"messages\":[{\"role\":\"system\",\"content\":\"a\"},{\"role\":\"assistant\",\"content\":\"b\"}],\"stream\":false}"
    );
}

#[test]
fn request_body_escapes_like_the_json_standard() {
    let messages = vec![ChatMessagePayload {
        role: "user".to_string(),
        content: "a\"b\\c\nd\te\u{08}f\u{0c}g\rh\u{01}i".to_string(),
    }];
    let body = chat_request_body("m", &messages, true);
    assert_eq!(
        body,
        "{\"model\":\"m\",\"messages\":[{\"role\":\"user\",\"content\":\"a\\\"b\\\\c\\nd\\te\\bf\\fg\\rh\\u0001i\"}],\"stream\":true}"
    );
}

#[test]
fn request_body_round_trips_through_a_json_parser() {
    let content = "quote \" backslash \\ newline \n control \u{02} unicode é中";
    let messages = vec![ChatMessagePayload {
        role: "user".to_string(),
        content: content.to_string(),
    }];
    let body = chat_request_body("model-x", &messages, true);
    let v: serde_json::Value = serde_json::from_str(&body).expect("body must be valid JSON");
    assert_eq!(v["model"].as_str(), Some("model-x"));
    assert_eq!(v["messages"][0]["role"].as_str(), Some("user"));
    assert_eq!(v["messages"][0]["content"].as_str(), Some(content));
    assert_eq!(v["stream"].as_bool(), Some(true));
}

#[test]
fn event_done_sentinel_ends_the_stream() {
    assert!(matches!(classify_event("[DONE]"), EventClass::Done));
}

#[test]
fn event_with_content_yields_a_fragment() {
    match classify_event("{\"choices\":[{\"delta\":{\"content\":\"Hi\"}}]}") {
        EventClass::Fragment(s) => assert_eq!(s, "Hi"),
        _ => panic!("expected a fragment"),
    }
}

#[test]
fn event_with_empty_content_is_suppressed() {
    assert!(matches!(
        classify_event("{\"choices\":[{\"delta\":{\"content\":\"\"}}]}"),
        EventClass::Skip
    ));
}

#[test]
fn event_without_content_is_suppressed() {
    assert!(matches!(classify_event("{\"choices\":[{\"delta\":{}}]}"), EventClass::Skip));
    assert!(matches!(
        classify_event("{\"choices\":[{\"delta\":{\"content\":null}}]}"),
        EventClass::Skip
    ));
}

#[test]
fn event_with_no_choices_is_suppressed() {
    assert!(matches!(classify_event("{\"choices\":[]}"), EventClass::Skip));
}

#[test]
fn event_with_broken_json_is_malformed() {
    assert!(matches!(classify_event("not json"), EventClass::Malformed));
    assert!(matches!(classify_event("{\"choices\":"), EventClass::Malformed));
}

#[test]
fn event_with_wrong_shape_is_malformed() {
    assert!(matches!(classify_event("{\"other\":1}"), EventClass::Malformed));
    assert!(matches!(classify_event("{\"choices\":5}"), EventClass::Malformed));
    assert!(matches!(classify_event("{\"choices\":[5]}"), EventClass::Malformed));
    assert!(matches!(classify_event("{\"choices\":[{}]}"), EventClass::Malformed));
    assert!(matches!(classify_event("{\"choices\":[{\"delta\":5}]}"), EventClass::Malformed));
    assert!(matches!(
        classify_event("{\"choices\":[{\"delta\":{\"content\":5}}]}"),
        EventClass::Malformed
    ));
}

#[test]
fn event_only_first_choice_carries_text() {
    match classify_event(
        "{\"choices\":[{\"delta\":{\"content\":\"one\"}},{\"delta\":{\"content\":\"two\"}}]}",
    ) {
        EventClass::Fragment(s) => assert_eq!(s, "one"),
        _ => panic!("expected a fragment"),
    }
}

#[test]
fn trim_removes_edges_only() {
    assert_eq!(trim_whitespace("  a b \n"), "a b");
    assert_eq!(trim_whitespace("\t\r\n  \t"), "");
    assert_eq!(trim_whitespace("xy"), "xy");
    assert_eq!(trim_whitespace(""), "");
    assert_eq!(trim_whitespace("\u{3000}wide\u{2028}"), "wide");
}
