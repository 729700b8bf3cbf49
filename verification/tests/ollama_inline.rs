//! The Ollama bridge's own examples: base URLs, tool calls, tool names and
//! the stream decoder.

use rp_universe_ai::json::JsonValue;
use rp_universe_ai::keyed_map::KeyedMap;
use rp_universe_ai::provider::normalize_base_url;
use rp_universe_ai::request::{normalize_assistant_tool_calls, normalize_request_body};
use rp_universe_ai::stream::{NormalizedEvent, SseDecoder};

fn s(x: &str) -> JsonValue {
    JsonValue::Str(x.to_string())
}

fn obj(pairs: Vec<(&str, JsonValue)>) -> JsonValue {
    let mut m = KeyedMap::new();
    for (k, v) in pairs {
        m.insert(k.to_string(), v);
    }
    JsonValue::Object(m)
}

fn strips_api_chat_suffix_case() {
    let url = normalize_base_url("http://127.0.0.1:11434/api/chat").expect("url");
    assert_eq!(url, "http://127.0.0.1:11434/");
}

fn strips_v1_suffix_case() {
    let url = normalize_base_url("http://127.0.0.1:11434/v1").expect("url");
    assert_eq!(url, "http://127.0.0.1:11434/");
}

fn normalizes_tool_calls_case() {
    let input = vec![obj(vec![
        ("id", s("call_weather")),
        ("type", s("function")),
        (
            "function",
            obj(vec![
                ("name", s("get_weather")),
                ("arguments", s("{\"city\":\"Istanbul\"}")),
            ]),
        ),
    ])];
    let mut map: KeyedMap<String> = KeyedMap::new();

    let normalized = normalize_assistant_tool_calls(&input, &mut map);

    assert_eq!(map.get("call_weather").map(String::as_str), Some("get_weather"));
    let expected = vec![obj(vec![
        ("type", s("function")),
        (
            "function",
            obj(vec![
                ("index", JsonValue::Number(rp_universe_ai::json::JsonNumber::PosInt(0))),
                ("name", s("get_weather")),
                ("arguments", obj(vec![("city", s("Istanbul"))])),
            ]),
        ),
    ])];
    assert_eq!(normalized.len(), expected.len());
    for (a, b) in normalized.iter().zip(expected.iter()) {
        assert!(a.same_as(b), "got {a:?}");
    }
}

fn infers_tool_name_case() {
    let body = obj(vec![
        ("model", s("qwen3")),
        (
            "messages",
            JsonValue::Array(vec![
                obj(vec![
                    ("role", s("assistant")),
                    (
                        "tool_calls",
                        JsonValue::Array(vec![obj(vec![
                            ("id", s("call_1")),
                            (
                                "function",
                                obj(vec![
                                    ("name", s("get_weather")),
                                    ("arguments", obj(vec![("city", s("Istanbul"))])),
                                ]),
                            ),
                        ])]),
                    ),
                ]),
                obj(vec![
                    ("role", s("tool")),
                    ("tool_call_id", s("call_1")),
                    ("content", s("{\"temperature\":\"20C\"}")),
                ]),
            ]),
        ),
    ]);

    let normalized = normalize_request_body(&body, &Vec::new()).expect("normalized body");
    let messages = normalized
        .get("messages")
        .and_then(|value| value.as_array())
        .expect("messages array");

    assert_eq!(
        messages[1].get("tool_name").and_then(|value| value.as_str()),
        Some("get_weather")
    );
}

fn stream_decoder_case() {
    let mut decoder = SseDecoder::new();

    let first = decoder.feed(
        "{\"message\":{\"role\":\"assistant\",\"content\":\"Mirelle\"},\"done\":false}\n",
        Some("ollama"),
    );
    let second = decoder.feed(
        "{\"message\":{\"role\":\"assistant\",\"content\":\"'s eyes return to yours\"},\"done\":false}\n",
        Some("ollama"),
    );
    let third = decoder.feed(
        "{\"message\":{\"role\":\"assistant\",\"content\":\" as she presses her seal into each corner.\"},\"done\":true}\n",
        Some("ollama"),
    );

    assert_eq!(first.len(), 1);
    match &first[0] {
        NormalizedEvent::Delta { text } => assert_eq!(text, "Mirelle"),
        other => panic!("unexpected first event: {other:?}"),
    }

    assert_eq!(second.len(), 1);
    match &second[0] {
        NormalizedEvent::Delta { text } => assert_eq!(text, "'s eyes return to yours"),
        other => panic!("unexpected second event: {other:?}"),
    }

    assert_eq!(third.len(), 2);
    match &third[0] {
        NormalizedEvent::Delta { text } => {
            assert_eq!(text, " as she presses her seal into each corner.")
        }
        other => panic!("unexpected third delta: {other:?}"),
    }
    assert!(matches!(third[1], NormalizedEvent::Done));
}

#[test]
fn mod_strips_api_chat_suffix() {
    strips_api_chat_suffix_case();
}

#[test]
fn ollama_inline_strips_api_chat_suffix() {
    strips_api_chat_suffix_case();
}

#[test]
fn mod_strips_v1_suffix() {
    strips_v1_suffix_case();
}

#[test]
fn ollama_inline_strips_v1_suffix() {
    strips_v1_suffix_case();
}

#[test]
fn mod_normalizes_openai_style_tool_calls_for_ollama() {
    normalizes_tool_calls_case();
}

#[test]
fn ollama_inline_normalizes_openai_style_tool_calls_for_ollama() {
    normalizes_tool_calls_case();
}

#[test]
fn mod_infers_tool_name_from_tool_call_id_for_tool_messages() {
    infers_tool_name_case();
}

#[test]
fn ollama_inline_infers_tool_name_from_tool_call_id_for_tool_messages() {
    infers_tool_name_case();
}

#[test]
fn mod_ollama_stream_decoder_preserves_leading_spaces_in_deltas() {
    stream_decoder_case();
}

#[test]
fn ollama_inline_ollama_stream_decoder_preserves_leading_spaces_in_deltas() {
    stream_decoder_case();
}

#[test]
fn ollama_reasoning_stream_preserves_leading_spaces() {
    let mut decoder = SseDecoder::new();

    let first = decoder.feed(
        "{\"message\":{\"thinking\":\"ThinkingProcess: 1.\"},\"done\":false}\n",
        Some("ollama"),
    );
    let second = decoder.feed(
        "{\"message\":{\"thinking\":\" Analyze the Request\"},\"done\":false}\n",
        Some("ollama"),
    );

    assert_eq!(first.len(), 1);
    match &first[0] {
        NormalizedEvent::Reasoning { text } => assert_eq!(text, "ThinkingProcess: 1."),
        other => panic!("unexpected first event: {other:?}"),
    }

    assert_eq!(second.len(), 1);
    match &second[0] {
        NormalizedEvent::Reasoning { text } => assert_eq!(text, " Analyze the Request"),
        other => panic!("unexpected second event: {other:?}"),
    }
}
