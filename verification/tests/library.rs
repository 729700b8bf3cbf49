//! Examples of the library's contracts and laws on concrete values.

use rp_universe_ai::chat::{plan_chat_request, wants_stream, ApiRequest};
use rp_universe_ai::espeak::{
    espeak_install_guide, explicit_espeak_config, resolve_desktop_espeak, resolve_espeak_config,
    KokoroError,
};
use rp_universe_ai::images::{image_url_to_base64, parse_data_url, FetchedImage, NormalizeStop};
use rp_universe_ai::json::{JsonNumber, JsonValue};
use rp_universe_ai::keyed_map::KeyedMap;
use rp_universe_ai::provider::{
    build_header_entries, credential_allows_invalid_tls, credential_runtime_headers,
    effective_timeout_ms, is_ollama_provider, models_url, normalize_base_url, base_path_of,
    ProviderCredential,
};
use rp_universe_ai::request::{convert_content, convert_message, normalize_request_body};
use rp_universe_ai::response::{
    chat_response, error_response, inject_missing_tool_call_ids, models_from_reply,
    parse_models_list, status_is_success,
};
use rp_universe_ai::stream::{
    aborted_envelope, stream_decode_envelope, ChatStream, NormalizedEvent, SseDecoder,
};
use rp_universe_ai::text::{decimal_string, str_eq_ignore_ascii_case, trim_str};

fn s(x: &str) -> JsonValue {
    JsonValue::Str(x.to_string())
}

fn n(x: u64) -> JsonValue {
    JsonValue::Number(JsonNumber::PosInt(x))
}

fn obj(pairs: Vec<(&str, JsonValue)>) -> JsonValue {
    let mut m = KeyedMap::new();
    for (k, v) in pairs {
        m.insert(k.to_string(), v);
    }
    JsonValue::Object(m)
}

fn arr(items: Vec<JsonValue>) -> JsonValue {
    JsonValue::Array(items)
}

fn stop_error(r: Result<JsonValue, NormalizeStop>) -> String {
    match r {
        Err(NormalizeStop::Error(m)) => m,
        other => panic!("expected an error, got {other:?}"),
    }
}

fn body_with(messages: Vec<JsonValue>) -> JsonValue {
    obj(vec![("model", s("llama3")), ("messages", arr(messages))])
}

// ----- text -----

#[test]
fn trim_strips_unicode_white_space() {
    assert_eq!(trim_str("\u{3000}\t hello world \n\u{a0}"), "hello world");
    assert_eq!(trim_str("   "), "");
    assert_eq!(trim_str("x"), "x");
}

#[test]
fn decimal_prints_digits() {
    assert_eq!(decimal_string(0), "0");
    assert_eq!(decimal_string(7), "7");
    assert_eq!(decimal_string(1234567890), "1234567890");
    assert_eq!(decimal_string(u64::MAX), "18446744073709551615");
}

#[test]
fn ascii_case_comparison() {
    assert!(str_eq_ignore_ascii_case("Authorization", "authorization"));
    assert!(str_eq_ignore_ascii_case("BEARER", "bearer"));
    assert!(!str_eq_ignore_ascii_case("bearer ", "bearer"));
    assert!(!str_eq_ignore_ascii_case("É", "é"));
}

// ----- keyed map -----

#[test]
fn keyed_map_reads_what_was_written() {
    let mut m: KeyedMap<String> = KeyedMap::new();
    assert_eq!(m.insert("a".to_string(), "1".to_string()), None);
    assert_eq!(m.insert("b".to_string(), "2".to_string()), None);
    assert_eq!(m.insert("a".to_string(), "3".to_string()), Some("1".to_string()));
    assert_eq!(m.len(), 2);
    assert_eq!(m.get("a").map(String::as_str), Some("3"));
    assert_eq!(m.entry_at(0).0, "a");
    assert_eq!(m.remove("a"), Some("3".to_string()));
    assert!(!m.contains_key("a"));
    assert_eq!(m.remove("a"), None);
    assert_eq!(m.len(), 1);
    let c = m.copy();
    assert_eq!(c.get("b").map(String::as_str), Some("2"));
}

// ----- json -----

#[test]
fn same_as_ignores_key_order() {
    let a = obj(vec![("x", n(1)), ("y", arr(vec![s("a"), JsonValue::Null]))]);
    let b = obj(vec![("y", arr(vec![s("a"), JsonValue::Null])), ("x", n(1))]);
    let c = obj(vec![("y", arr(vec![s("a")])), ("x", n(1))]);
    assert!(a.same_as(&b));
    assert!(!a.same_as(&c));
    assert!(a.duplicate().same_as(&a));
    assert!(!n(1).same_as(&s("1")));
}

#[test]
fn json_accessors() {
    let v = obj(vec![("k", JsonValue::Bool(true)), ("n", n(5))]);
    assert_eq!(v.get("k").and_then(|x| x.as_bool()), Some(true));
    assert_eq!(v.get("n").and_then(|x| x.as_u64()), Some(5));
    assert!(v.get("missing").is_none());
    assert!(s("text").get("k").is_none());
    assert_eq!(JsonValue::Number(JsonNumber::NegInt(-3)).as_u64(), None);
}

// ----- images -----

#[test]
fn data_urls_split_at_first_comma() {
    assert_eq!(
        parse_data_url("data:image/png;base64,AAAA,BB"),
        Some(("image/png;base64".to_string(), "AAAA,BB".to_string()))
    );
    assert_eq!(parse_data_url("data:nocomma"), None);
    assert_eq!(parse_data_url("https://x/y.png"), None);
}

#[test]
fn image_urls_become_base64() {
    let fetched = vec![FetchedImage {
        url: "https://img.example/a.png".to_string(),
        outcome: Ok(b"hello".to_vec()),
    }];
    match image_url_to_base64("https://img.example/a.png", &fetched) {
        Ok(t) => assert_eq!(t, "aGVsbG8="),
        Err(e) => panic!("{e:?}"),
    }
    match image_url_to_base64("data:image/png;base64,QUJD", &fetched) {
        Ok(t) => assert_eq!(t, "QUJD"),
        Err(e) => panic!("{e:?}"),
    }
    match image_url_to_base64("file.png", &fetched) {
        Ok(t) => assert_eq!(t, "file.png"),
        Err(e) => panic!("{e:?}"),
    }
    match image_url_to_base64("http://other/b.png", &fetched) {
        Err(NormalizeStop::FetchImage(u)) => assert_eq!(u, "http://other/b.png"),
        other => panic!("{other:?}"),
    }
    let failed = vec![FetchedImage {
        url: "http://other/b.png".to_string(),
        outcome: Err("connection refused".to_string()),
    }];
    match image_url_to_base64("http://other/b.png", &failed) {
        Err(NormalizeStop::Error(m)) => assert_eq!(m, "connection refused"),
        other => panic!("{other:?}"),
    }
}

#[test]
fn base64_pads_short_groups() {
    for (bytes, text) in [
        (&b""[..], ""),
        (&b"f"[..], "Zg=="),
        (&b"fo"[..], "Zm8="),
        (&b"foo"[..], "Zm9v"),
        (&b"foob"[..], "Zm9vYg=="),
        (&[0xfbu8, 0xff][..], "+/8="),
    ] {
        let fetched = vec![FetchedImage { url: "http://i".to_string(), outcome: Ok(bytes.to_vec()) }];
        match image_url_to_base64("http://i", &fetched) {
            Ok(t) => assert_eq!(t, text),
            Err(e) => panic!("{e:?}"),
        }
    }
}

// ----- content and messages -----

#[test]
fn content_parts_flatten_to_text_and_images() {
    let content = arr(vec![
        obj(vec![("type", s("text")), ("text", s("Look: "))]),
        obj(vec![
            ("type", s("image_url")),
            ("image_url", obj(vec![("url", s("data:image/png;base64,QUJD"))])),
        ]),
        s("not an object"),
        obj(vec![("type", s("audio")), ("text", s("skipped"))]),
        obj(vec![("type", s("text")), ("text", s("here"))]),
    ]);
    let (text, images) = convert_content(Some(&content), &Vec::new()).expect("content");
    assert_eq!(text, "Look: here");
    assert_eq!(images, vec!["QUJD".to_string()]);
}

#[test]
fn content_of_other_values_is_its_json_text() {
    let (t, i) = convert_content(Some(&obj(vec![("a", n(1))])), &Vec::new()).expect("content");
    assert_eq!(t, "{\"a\":1}");
    assert!(i.is_empty());
    let (t, _) = convert_content(Some(&JsonValue::Null), &Vec::new()).expect("content");
    assert_eq!(t, "null");
    let (t, _) = convert_content(None, &Vec::new()).expect("content");
    assert_eq!(t, "");
}

#[test]
fn remote_images_are_asked_for_in_order() {
    let content = arr(vec![
        obj(vec![("type", s("image_url")), ("image_url", obj(vec![("url", s("http://a/1"))]))]),
        obj(vec![("type", s("image_url")), ("image_url", obj(vec![("url", s("http://a/2"))]))]),
    ]);
    match convert_content(Some(&content), &Vec::new()) {
        Err(NormalizeStop::FetchImage(u)) => assert_eq!(u, "http://a/1"),
        other => panic!("{other:?}"),
    }
    let fetched = vec![FetchedImage { url: "http://a/1".to_string(), outcome: Ok(vec![0]) }];
    match convert_content(Some(&content), &fetched) {
        Err(NormalizeStop::FetchImage(u)) => assert_eq!(u, "http://a/2"),
        other => panic!("{other:?}"),
    }
}

#[test]
fn message_gets_role_content_and_images() {
    let msg = obj(vec![
        ("content", arr(vec![
            obj(vec![("type", s("text")), ("text", s("hi"))]),
            obj(vec![("type", s("image_url")), ("image_url", obj(vec![("url", s("plain"))]))]),
        ])),
        ("images", s("dropped")),
        ("name", s("kept")),
    ]);
    let mut names: KeyedMap<String> = KeyedMap::new();
    let out = convert_message(&msg, &mut names, &Vec::new()).expect("message");
    let expected = obj(vec![
        ("name", s("kept")),
        ("role", s("user")),
        ("content", s("hi")),
        ("images", arr(vec![s("plain")])),
    ]);
    assert!(out.same_as(&expected), "got {out:?}");
}

#[test]
fn assistant_without_named_calls_keeps_its_tool_calls() {
    let calls = arr(vec![obj(vec![("function", obj(vec![("arguments", s("{}"))]))])]);
    let msg = obj(vec![("role", s("assistant")), ("content", s("")), ("tool_calls", calls.duplicate())]);
    let mut names: KeyedMap<String> = KeyedMap::new();
    let out = convert_message(&msg, &mut names, &Vec::new()).expect("message");
    assert!(out.get("tool_calls").expect("calls").same_as(&calls));
}

#[test]
fn tool_call_arguments_and_index() {
    let input = vec![
        obj(vec![("function", obj(vec![("name", s("a")), ("arguments", s("not json")), ("index", n(7))]))]),
        obj(vec![("name", s("b")), ("id", s(""))]),
        obj(vec![("function", s("no object"))]),
        obj(vec![("function", obj(vec![("name", s("c")), ("arguments", arr(vec![n(1)]))])), ("id", s("x"))]),
    ];
    let mut names: KeyedMap<String> = KeyedMap::new();
    let out = rp_universe_ai::request::normalize_assistant_tool_calls(&input, &mut names);
    assert_eq!(out.len(), 3);
    let f0 = out[0].get("function").expect("function");
    assert_eq!(f0.get("index").and_then(|x| x.as_u64()), Some(7));
    assert_eq!(f0.get("arguments").and_then(|x| x.as_str()), Some("not json"));
    let f1 = out[1].get("function").expect("function");
    assert_eq!(f1.get("index").and_then(|x| x.as_u64()), Some(1));
    assert!(f1.get("arguments").expect("args").same_as(&obj(vec![])));
    let f2 = out[2].get("function").expect("function");
    assert_eq!(f2.get("index").and_then(|x| x.as_u64()), Some(3));
    assert!(f2.get("arguments").expect("args").same_as(&arr(vec![n(1)])));
    assert_eq!(names.len(), 1);
    assert_eq!(names.get("x").map(String::as_str), Some("c"));
}

#[test]
fn request_body_errors() {
    assert_eq!(
        stop_error(normalize_request_body(&s("x"), &Vec::new())),
        "Ollama request body must be a JSON object"
    );
    assert_eq!(
        stop_error(normalize_request_body(&obj(vec![("messages", arr(vec![]))]), &Vec::new())),
        "Ollama request body is missing model"
    );
    assert_eq!(
        stop_error(normalize_request_body(&obj(vec![("model", s(" \t"))]), &Vec::new())),
        "Ollama request body has an empty model"
    );
    assert_eq!(
        stop_error(normalize_request_body(&obj(vec![("model", s("m"))]), &Vec::new())),
        "Ollama request body is missing messages"
    );
    assert_eq!(
        stop_error(normalize_request_body(&body_with(vec![s("hi")]), &Vec::new())),
        "Ollama message must be a JSON object"
    );
}

#[test]
fn think_is_carried_over() {
    let mut b = body_with(vec![]);
    if let JsonValue::Object(m) = &mut b {
        m.insert("reasoningEffort".to_string(), s("high"));
        m.insert("reasoning".to_string(), JsonValue::Bool(true));
    }
    let out = normalize_request_body(&b, &Vec::new()).expect("body");
    assert_eq!(out.get("think").and_then(|x| x.as_str()), Some("high"));
    if let JsonValue::Object(m) = &mut b {
        m.insert("think".to_string(), JsonValue::Bool(false));
    }
    let out = normalize_request_body(&b, &Vec::new()).expect("body");
    assert_eq!(out.get("think").and_then(|x| x.as_bool()), Some(false));
}

#[test]
fn normalized_messages_keep_count_and_roles() {
    let b = body_with(vec![
        obj(vec![("role", s("system")), ("content", s("be brief"))]),
        obj(vec![("content", s("hello"))]),
    ]);
    let out = normalize_request_body(&b, &Vec::new()).expect("body");
    let ms = out.get("messages").and_then(|x| x.as_array()).expect("messages");
    assert_eq!(ms.len(), 2);
    assert_eq!(ms[0].get("role").and_then(|x| x.as_str()), Some("system"));
    assert_eq!(ms[1].get("role").and_then(|x| x.as_str()), Some("user"));
    assert_eq!(out.get("model").and_then(|x| x.as_str()), Some("llama3"));
}

// ----- replies -----

#[test]
fn tool_call_ids_are_injected_once() {
    let mut v = obj(vec![(
        "message",
        obj(vec![(
            "tool_calls",
            arr(vec![obj(vec![]), obj(vec![("id", s("keep"))]), s("x"), obj(vec![])]),
        )]),
    )]);
    inject_missing_tool_call_ids(&mut v);
    let calls = v.get("message").and_then(|m| m.get("tool_calls")).and_then(|c| c.as_array()).expect("calls");
    assert_eq!(calls[0].get("id").and_then(|x| x.as_str()), Some("call_1"));
    assert_eq!(calls[1].get("id").and_then(|x| x.as_str()), Some("keep"));
    assert!(calls[2].same_as(&s("x")));
    assert_eq!(calls[3].get("id").and_then(|x| x.as_str()), Some("call_4"));
    let once = v.duplicate();
    inject_missing_tool_call_ids(&mut v);
    assert!(v.same_as(&once));
    let mut plain = obj(vec![("message", s("no object"))]);
    inject_missing_tool_call_ids(&mut plain);
    assert!(plain.same_as(&obj(vec![("message", s("no object"))])));
}

#[test]
fn models_are_listed_with_descriptions() {
    let payload = obj(vec![(
        "models",
        arr(vec![
            obj(vec![("name", s("llama3:8b")), ("details", obj(vec![("parameter_size", s("8.0B"))]))]),
            obj(vec![("name", s("tiny")), ("size", n(1234))]),
            obj(vec![("size", n(1))]),
            obj(vec![("name", s("bare"))]),
        ]),
    )]);
    let models = parse_models_list(&payload);
    assert_eq!(models.len(), 3);
    assert_eq!(models[0].id, "llama3:8b");
    assert_eq!(models[0].display_name.as_deref(), Some("llama3:8b"));
    assert_eq!(models[0].description.as_deref(), Some("8.0B parameters"));
    assert_eq!(models[1].description.as_deref(), Some("1234 bytes"));
    assert_eq!(models[2].description, None);
    assert!(parse_models_list(&obj(vec![])).is_empty());
}

#[test]
fn model_replies() {
    match models_from_reply(false, "404 Not Found", "nope") {
        Err(m) => assert_eq!(m, "Provider returned error 404 Not Found: nope"),
        Ok(_) => panic!("expected an error"),
    }
    assert!(models_from_reply(true, "200 OK", "{not json").is_err());
    let ms = models_from_reply(true, "200 OK", "{\"models\":[{\"name\":\"a\"}]}").expect("models");
    assert_eq!(ms.len(), 1);
    assert_eq!(ms[0].id, "a");
}

#[test]
fn chat_replies() {
    assert!(status_is_success(200) && status_is_success(299));
    assert!(!status_is_success(199) && !status_is_success(300));
    let r = error_response(500, "boom");
    assert!(!r.ok);
    assert_eq!(r.status, 500);
    assert!(r.data.same_as(&obj(vec![("error", s("boom"))])));
    let r = error_response(400, "{\"error\":\"bad\"}");
    assert!(r.data.same_as(&obj(vec![("error", s("bad"))])));
    let r = chat_response(200, "{\"message\":{\"tool_calls\":[{}]}}").expect("response");
    assert!(r.ok);
    let id = r.data.get("message").and_then(|m| m.get("tool_calls")).and_then(|c| c.as_array()).expect("calls")[0]
        .get("id")
        .and_then(|x| x.as_str())
        .map(str::to_string);
    assert_eq!(id.as_deref(), Some("call_1"));
    assert!(chat_response(200, "oops").is_err());
    let r = chat_response(503, "oops").expect("response");
    assert!(!r.ok && r.status == 503);
}

// ----- provider settings -----

#[test]
fn ollama_provider_ids() {
    assert!(is_ollama_provider(Some("ollama")));
    assert!(!is_ollama_provider(Some("Ollama")));
    assert!(!is_ollama_provider(Some("openai")));
    assert!(!is_ollama_provider(None));
}

fn credential(key: Option<&str>, headers: Option<KeyedMap<String>>) -> ProviderCredential {
    ProviderCredential {
        base_url: None,
        api_key: key.map(str::to_string),
        headers,
        config: None,
    }
}

#[test]
fn runtime_headers_add_bearer_token() {
    let h = credential_runtime_headers(&credential(Some("  sk-1  "), None));
    assert_eq!(h.get("Authorization").map(String::as_str), Some("Bearer sk-1"));
    let h = credential_runtime_headers(&credential(Some("   "), None));
    assert_eq!(h.len(), 0);
    let mut own: KeyedMap<String> = KeyedMap::new();
    own.insert("Authorization".to_string(), "Basic abc".to_string());
    let h = credential_runtime_headers(&credential(Some("sk-1"), Some(own)));
    assert_eq!(h.get("Authorization").map(String::as_str), Some("Basic abc"));
    assert_eq!(h.len(), 1);
}

#[test]
fn invalid_tls_flag() {
    let mut c = credential(None, None);
    assert!(!credential_allows_invalid_tls(&c));
    c.config = Some(obj(vec![("allowInvalidTls", JsonValue::Bool(true))]));
    assert!(credential_allows_invalid_tls(&c));
    c.config = Some(obj(vec![("allowInvalidTls", s("true"))]));
    assert!(!credential_allows_invalid_tls(&c));
}

#[test]
fn timeouts() {
    assert_eq!(effective_timeout_ms(Some(5), 100, false), Some(5));
    assert_eq!(effective_timeout_ms(Some(500), 100, false), Some(100));
    assert_eq!(effective_timeout_ms(None, 100, false), Some(100));
    assert_eq!(effective_timeout_ms(Some(5), 100, true), None);
}

#[test]
fn header_entries() {
    let mut h: KeyedMap<String> = KeyedMap::new();
    h.insert("X-One".to_string(), "  v  ".to_string());
    h.insert("X-Blank".to_string(), "   ".to_string());
    h.insert("authorization".to_string(), "Bearer".to_string());
    let out = build_header_entries(Some(&h)).expect("headers");
    assert_eq!(out, vec![("X-One".to_string(), "v".to_string())]);
    assert!(build_header_entries(None).expect("none").is_empty());
    let mut bad: KeyedMap<String> = KeyedMap::new();
    bad.insert("bad name".to_string(), "v".to_string());
    assert_eq!(build_header_entries(Some(&bad)), Err("invalid HTTP header name".to_string()));
    let mut bad: KeyedMap<String> = KeyedMap::new();
    bad.insert("X".to_string(), "a\u{1}b".to_string());
    assert_eq!(build_header_entries(Some(&bad)), Err("failed to parse header value".to_string()));
}

#[test]
fn base_paths_and_fixed_points() {
    assert_eq!(base_path_of("/x/api/chat/"), "/x/");
    assert_eq!(base_path_of("/x/"), "/x/");
    assert_eq!(base_path_of(""), "/");
    assert_eq!(base_path_of("/v1/api/chat"), "/v1/");
    assert_eq!(base_path_of("/v1/"), "/");
    let once = normalize_base_url("http://h:1/x/api/chat").expect("url");
    assert_eq!(once, "http://h:1/x/");
    assert_eq!(normalize_base_url(&once).expect("url"), once);
}

#[test]
fn decoder_reads_ollama_records_for_any_label() {
    let mut d = SseDecoder::new();
    let evs = d.feed("{\"message\":{\"content\":\"x\"},\"done\":true}\n", None);
    assert_eq!(evs.len(), 2);
    assert!(matches!(&evs[0], NormalizedEvent::Delta { text } if text == "x"));
    assert!(matches!(evs[1], NormalizedEvent::Done));
}

#[test]
fn base_urls() {
    assert_eq!(normalize_base_url("http://host:1/api/tags/").expect("url"), "http://host:1/");
    assert_eq!(normalize_base_url("http://host:1/proxy//").expect("url"), "http://host:1/proxy/");
    assert_eq!(normalize_base_url("http://host:1/p/api/chat?x=1#f").expect("url"), "http://host:1/p/");
    assert_eq!(normalize_base_url("   ").expect("url"), "http://127.0.0.1:11434/");
    assert!(normalize_base_url("not a url").is_err());
    let mut c = credential(None, None);
    assert_eq!(models_url(&c).expect("url"), "http://127.0.0.1:11434/api/tags");
    c.base_url = Some("https://ollama.example/v1/".to_string());
    assert_eq!(models_url(&c).expect("url"), "https://ollama.example/api/tags");
}

// ----- streams -----

#[test]
fn decoder_keeps_partial_lines() {
    let mut whole = SseDecoder::new();
    let all = whole.feed("{\"message\":{\"content\":\"ab\"}}\n{\"done\":true}\n", Some("ollama"));
    let mut parts = SseDecoder::new();
    let mut got = parts.feed("{\"message\":{\"con", Some("ollama"));
    assert!(got.is_empty());
    got.extend(parts.feed("tent\":\"ab\"}}\n{\"done\":", Some("ollama")));
    got.extend(parts.feed("true}\n", Some("ollama")));
    assert_eq!(got.len(), all.len());
    assert_eq!(got.len(), 2);
    assert!(matches!(&got[0], NormalizedEvent::Delta { text } if text == "ab"));
    assert!(matches!(got[1], NormalizedEvent::Done));
    let skipped = parts.feed("not json\n\n", Some("ollama"));
    assert!(skipped.is_empty());
}

#[test]
fn chat_stream_records_lines_and_end() {
    let mut st = ChatStream::new();
    let step = st.push_chunk("{\"message\":{\"content\":\"a\"},\"done\":false}\n  \n{\"message\":{\"con");
    assert!(step.error.is_none());
    assert_eq!(step.events.len(), 1);
    assert!(!st.saw_done());
    let step = st.push_chunk("tent\":\"b\"},\"done\":true}\n");
    assert_eq!(step.events.len(), 2);
    assert!(st.saw_done());
    assert!(st.finish().events.is_empty());
    assert!(!st.close());
    let raw = st.raw().clone();
    assert_eq!(
        raw,
        "data: {\"message\":{\"content\":\"a\"},\"done\":false}\n\ndata: {\"message\":{\"content\":\"b\"},\"done\":true}\n\ndata: [DONE]\n\n"
    );
    let resp = st.into_response();
    assert_eq!(resp.status, 200);
    assert!(resp.data.same_as(&s(&raw)));
}

#[test]
fn chat_stream_chunking_does_not_matter() {
    let reply = "{\"message\":{\"thinking\":\" hm\",\"content\":\" a\"}}\n{\"message\":{\"content\":\"b\"},\"done\":true}\n{\"x\":";
    let mut whole = ChatStream::new();
    let all = whole.push_chunk(reply);
    assert!(all.error.is_none());
    let mut parts = ChatStream::new();
    let first = parts.push_chunk(&reply[..20]);
    assert!(first.error.is_none());
    let second = parts.push_chunk(&reply[20..]);
    assert!(second.error.is_none());
    assert_eq!(first.events.len() + second.events.len(), all.events.len());
    assert_eq!(all.events.len(), 4);
    assert!(matches!(&all.events[0], NormalizedEvent::Reasoning { text } if text == " hm"));
    assert!(matches!(&all.events[1], NormalizedEvent::Delta { text } if text == " a"));
    assert!(matches!(&all.events[2], NormalizedEvent::Delta { text } if text == "b"));
    assert!(matches!(all.events[3], NormalizedEvent::Done));
    assert_eq!(parts.raw(), whole.raw());
    assert_eq!(parts.saw_done(), whole.saw_done());
}

#[test]
fn chat_stream_without_end_is_closed() {
    let mut st = ChatStream::new();
    let step = st.push_chunk("{\"message\":{\"tool_calls\":[{}]}}\n");
    assert!(step.error.is_none());
    let step = st.finish();
    assert!(step.events.is_empty());
    assert!(st.close());
    assert!(st.raw().ends_with("data: [DONE]\n\n"));
    let mut st = ChatStream::new();
    st.push_chunk("{\"message\":{\"content\":\"tail\"}}");
    let step = st.finish();
    assert_eq!(step.events.len(), 1);
    let mut st = ChatStream::new();
    let step = st.push_chunk("{bad\n");
    assert!(step.error.is_some());
}

#[test]
fn stream_envelopes() {
    let e = aborted_envelope(Some("ollama".to_string()), "r1");
    assert_eq!(e.code.as_deref(), Some("ABORTED"));
    assert_eq!(e.message, "Request was cancelled by user");
    assert_eq!(e.status, None);
    let e = stream_decode_envelope(None, "r1");
    assert_eq!(e.code.as_deref(), Some("OLLAMA_STREAM_DECODE"));
    assert_eq!(e.status, Some(500));
    assert_eq!(e.request_id.as_deref(), Some("r1"));
}

// ----- espeak -----

#[test]
fn espeak_configs() {
    assert!(matches!(explicit_espeak_config(None, Some("d".to_string()), false, true), Ok(None)));
    assert!(matches!(explicit_espeak_config(None, None, false, false), Ok(None)));
    assert!(matches!(explicit_espeak_config(None, Some("/nope".to_string()), false, false), Ok(None)));
    match explicit_espeak_config(Some("/bin/espeak".to_string()), None, false, true) {
        Err(KokoroError::Config(m)) => assert_eq!(m, "Configured eSpeak NG binary does not exist: /bin/espeak"),
        other => panic!("{other:?}"),
    }
    match explicit_espeak_config(Some("b".to_string()), Some("/data".to_string()), true, false) {
        Err(KokoroError::Config(m)) => assert_eq!(m, "Configured eSpeak NG data path does not exist: /data"),
        other => panic!("{other:?}"),
    }
    match explicit_espeak_config(Some("b".to_string()), Some("d".to_string()), true, true) {
        Ok(Some(c)) => {
            assert_eq!(c.bin_path.as_deref(), Some("b"));
            assert_eq!(c.data_path.as_deref(), Some("d"));
        }
        other => panic!("{other:?}"),
    }
    assert!(matches!(resolve_desktop_espeak(None, true, "linux"), Ok(c) if c.bin_path.is_none() && c.data_path.is_none()));
    match resolve_desktop_espeak(None, false, "macos") {
        Err(KokoroError::EspeakUnavailable(m)) => assert_eq!(m, espeak_install_guide("macos")),
        other => panic!("{other:?}"),
    }
}

#[test]
fn espeak_data_dir_alone_is_kept() {
    match resolve_espeak_config(None, Some("/data".to_string()), false, true, true, "linux") {
        Ok(c) => {
            assert_eq!(c.bin_path, None);
            assert_eq!(c.data_path.as_deref(), Some("/data"));
        }
        other => panic!("{other:?}"),
    }
    match resolve_espeak_config(None, Some("/data".to_string()), false, false, true, "linux") {
        Ok(c) => assert_eq!(c.data_path.as_deref(), Some("/data")),
        other => panic!("{other:?}"),
    }
    match resolve_espeak_config(None, Some("/data".to_string()), false, true, false, "windows") {
        Err(KokoroError::EspeakUnavailable(m)) => assert_eq!(m, espeak_install_guide("windows")),
        other => panic!("{other:?}"),
    }
    match resolve_espeak_config(Some("b".to_string()), Some("d".to_string()), true, true, false, "linux") {
        Ok(c) => {
            assert_eq!(c.bin_path.as_deref(), Some("b"));
            assert_eq!(c.data_path.as_deref(), Some("d"));
        }
        other => panic!("{other:?}"),
    }
    assert!(matches!(resolve_espeak_config(None, None, false, false, true, "linux"), Ok(c) if c.bin_path.is_none() && c.data_path.is_none()));
}

#[test]
fn espeak_guides() {
    let g = espeak_install_guide("windows");
    assert!(g.starts_with("Kokoro requires eSpeak NG for phonemization, but `espeak-ng` was not found.\n\n"));
    assert!(g.contains("winget install eSpeak-NG.eSpeak-NG"));
    assert!(g.ends_with("\n\nGuide: https://github.com/espeak-ng/espeak-ng"));
    assert!(espeak_install_guide("freebsd").contains("make sure `espeak-ng` is on PATH"));
    assert!(espeak_install_guide("linux").contains("sudo pacman -S espeak-ng"));
}

// ----- chat requests -----

#[test]
fn chat_request_plans() {
    let mut req = ApiRequest {
        url: "http://127.0.0.1:11434/api/chat".to_string(),
        body: None,
        headers: None,
        timeout_ms: Some(1000),
        stream: Some(true),
        request_id: None,
        provider_id: Some("ollama".to_string()),
    };
    assert!(!wants_stream(&req));
    match plan_chat_request(&req, 500, &Vec::new()) {
        Err(NormalizeStop::Error(m)) => assert_eq!(m, "Ollama request body is required"),
        other => panic!("{other:?}"),
    }
    req.body = Some(body_with(vec![obj(vec![("content", s("hi"))])]));
    let plan = plan_chat_request(&req, 500, &Vec::new()).expect("plan");
    assert!(!plan.stream);
    assert_eq!(plan.timeout_ms, Some(500));
    req.request_id = Some("r".to_string());
    let plan = plan_chat_request(&req, 500, &Vec::new()).expect("plan");
    assert!(plan.stream);
    assert_eq!(plan.timeout_ms, None);
}
