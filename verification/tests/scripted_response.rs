use std::collections::HashMap;

use base64::Engine as _;
use obscura::scripted_response::{
    record_scripted_response, BodyBufferLimits, ScriptedNetworkState, ScriptedResponse,
    DEFAULT_BODY_BUFFER_BYTES, DEFAULT_BODY_BUFFER_ENTRIES, MAX_JS_NETWORK_EVENTS,
};

fn response<'a>(
    headers: &'a HashMap<String, String>,
    request_body: &'a [u8],
    body: &'a [u8],
) -> ScriptedResponse<'a> {
    ScriptedResponse {
        url: "https://example.test/upload",
        method: "POST",
        request_headers: headers,
        request_body,
        status: 200,
        headers,
        body,
    }
}

fn defaults() -> BodyBufferLimits {
    BodyBufferLimits::from_settings(None, None)
}

#[test]
fn intercepted_binary_response_keeps_id_and_exact_request_and_response_bytes() {
    let mut state = ScriptedNetworkState::new();
    let headers = HashMap::new();
    let id = record_scripted_response(
        &mut state,
        Some("intercept-7".into()),
        ScriptedResponse {
            url: "https://example.test/upload",
            method: "POST",
            request_headers: &headers,
            request_body: &[0, 255, 128],
            status: 200,
            headers: &headers,
            body: &[255, 0, 128],
        },
        defaults(),
        0,
    );
    assert_eq!(id, "intercept-7");
    let body = state.response_body(&id).unwrap();
    assert!(body.base64_encoded);
    assert_eq!(
        base64::engine::general_purpose::STANDARD.decode(&body.body).unwrap(),
        [255, 0, 128]
    );
    assert_eq!(state.js_network_events()[0].request_id, id);
    assert_eq!(
        state.js_network_events()[0].post_data_bytes.as_deref(),
        Some([0, 255, 128].as_slice())
    );
}

#[test]
fn generated_ids_count_up_and_differ() {
    let mut state = ScriptedNetworkState::new();
    let headers = HashMap::new();
    let first = record_scripted_response(&mut state, None, response(&headers, b"", b"{}"), defaults(), 1);
    let second = record_scripted_response(&mut state, None, response(&headers, b"", b"{}"), defaults(), 2);
    assert_eq!(first, "fetch-1");
    assert_eq!(second, "fetch-2");
    assert_ne!(first, second);
    // A kept interception ID does not advance the counter.
    record_scripted_response(&mut state, Some("intercept-1".into()), response(&headers, b"", b""), defaults(), 3);
    let third = record_scripted_response(&mut state, None, response(&headers, b"", b""), defaults(), 4);
    assert_eq!(third, "fetch-3");
}

#[test]
fn text_body_is_stored_as_text_and_event_describes_the_exchange() {
    let mut state = ScriptedNetworkState::new();
    let mut headers = HashMap::new();
    headers.insert("x-fixture".to_string(), "timeline".to_string());
    let id = record_scripted_response(
        &mut state,
        None,
        response(&headers, b"cursor=next&count=12", br#"{"transport":"fetch"}"#),
        defaults(),
        1_700_000_000_000_000,
    );
    let body = state.response_body(&id).expect("CDP response body");
    assert!(!body.base64_encoded);
    assert_eq!(body.body, r#"{"transport":"fetch"}"#);
    let events = state.js_network_events();
    assert_eq!(events.len(), 1);
    let event = &events[0];
    assert_eq!(event.url, "https://example.test/upload");
    assert_eq!(event.method, "POST");
    assert_eq!(event.status, 200);
    assert_eq!(event.post_data.as_deref(), Some("cursor=next&count=12"));
    assert_eq!(event.request_headers.get("x-fixture").map(String::as_str), Some("timeline"));
    assert_eq!(event.body_size, 21);
    assert_eq!(event.timestamp_micros, 1_700_000_000_000_000);
}

#[test]
fn empty_request_body_records_no_post_data() {
    let mut state = ScriptedNetworkState::new();
    let headers = HashMap::new();
    record_scripted_response(&mut state, None, response(&headers, b"", b"ok"), defaults(), 0);
    let event = &state.js_network_events()[0];
    assert_eq!(event.post_data, None);
    assert_eq!(event.post_data_bytes, None);
}

#[test]
fn invalid_utf8_request_body_is_replaced_in_post_data() {
    let mut state = ScriptedNetworkState::new();
    let headers = HashMap::new();
    record_scripted_response(&mut state, None, response(&headers, &[0x61, 0xff], b""), defaults(), 0);
    let event = &state.js_network_events()[0];
    assert_eq!(event.post_data.as_deref(), Some("a\u{fffd}"));
    assert_eq!(event.post_data_bytes.as_deref(), Some([0x61, 0xff].as_slice()));
}

#[test]
fn oldest_bodies_are_evicted_first() {
    let mut state = ScriptedNetworkState::new();
    let headers = HashMap::new();
    let limits = BodyBufferLimits { max_entries: 2, max_bytes: 1024 };
    let a = record_scripted_response(&mut state, None, response(&headers, b"", b"a"), limits, 0);
    let b = record_scripted_response(&mut state, None, response(&headers, b"", b"b"), limits, 0);
    let c = record_scripted_response(&mut state, None, response(&headers, b"", b"c"), limits, 0);
    assert!(state.response_body(&a).is_none());
    assert_eq!(state.response_body(&b).unwrap().body, "b");
    assert_eq!(state.response_body(&c).unwrap().body, "c");
    // Every exchange still has its event.
    assert_eq!(state.js_network_events().len(), 3);
}

#[test]
fn buffer_off_or_body_too_large_keeps_only_the_event() {
    let mut state = ScriptedNetworkState::new();
    let headers = HashMap::new();
    let off = BodyBufferLimits { max_entries: 0, max_bytes: 1024 };
    let id = record_scripted_response(&mut state, None, response(&headers, b"", b"body"), off, 0);
    assert!(state.response_body(&id).is_none());
    let no_bytes = BodyBufferLimits { max_entries: 8, max_bytes: 0 };
    let id = record_scripted_response(&mut state, None, response(&headers, b"", b""), no_bytes, 0);
    assert!(state.response_body(&id).is_none());
    let small = BodyBufferLimits { max_entries: 8, max_bytes: 3 };
    let id = record_scripted_response(&mut state, None, response(&headers, b"", b"four"), small, 0);
    assert!(state.response_body(&id).is_none());
    let id = record_scripted_response(&mut state, None, response(&headers, b"", b"two"), small, 0);
    assert_eq!(state.response_body(&id).unwrap().body, "two");
    assert_eq!(state.js_network_events().len(), 4);
}

#[test]
fn re_recording_an_id_keeps_its_new_body() {
    let mut state = ScriptedNetworkState::new();
    let headers = HashMap::new();
    let one = BodyBufferLimits { max_entries: 1, max_bytes: 1024 };
    record_scripted_response(&mut state, Some("X".into()), response(&headers, b"", b"first"), one, 0);
    assert_eq!(state.response_body("X").unwrap().body, "first");
    record_scripted_response(&mut state, Some("X".into()), response(&headers, b"", b"second"), one, 0);
    assert_eq!(state.response_body("X").unwrap().body, "second");

    // With room for two, re-recording the oldest ID moves it to the newest
    // place: the other body stays and the next eviction drops it first.
    let mut state = ScriptedNetworkState::new();
    let two = BodyBufferLimits { max_entries: 2, max_bytes: 1024 };
    record_scripted_response(&mut state, Some("X".into()), response(&headers, b"", b"x1"), two, 0);
    record_scripted_response(&mut state, Some("Y".into()), response(&headers, b"", b"y"), two, 0);
    record_scripted_response(&mut state, Some("X".into()), response(&headers, b"", b"x2"), two, 0);
    assert_eq!(state.response_body("X").unwrap().body, "x2");
    assert_eq!(state.response_body("Y").unwrap().body, "y");
    record_scripted_response(&mut state, Some("Z".into()), response(&headers, b"", b"z"), two, 0);
    assert!(state.response_body("Y").is_none());
    assert_eq!(state.response_body("X").unwrap().body, "x2");
    assert_eq!(state.response_body("Z").unwrap().body, "z");
}

#[test]
fn event_log_keeps_the_newest_events() {
    let mut state = ScriptedNetworkState::new();
    let headers = HashMap::new();
    let off = BodyBufferLimits { max_entries: 0, max_bytes: 0 };
    for i in 0..(MAX_JS_NETWORK_EVENTS as u64 + 3) {
        record_scripted_response(&mut state, None, response(&headers, b"", b""), off, i);
    }
    let events = state.js_network_events();
    assert_eq!(events.len(), MAX_JS_NETWORK_EVENTS);
    assert_eq!(events[0].request_id, "fetch-4");
    assert_eq!(events[0].timestamp_micros, 3);
    assert_eq!(events[MAX_JS_NETWORK_EVENTS - 1].request_id, "fetch-4099");
}

#[test]
fn limits_default_when_unset() {
    let limits = BodyBufferLimits::from_settings(None, None);
    assert_eq!(limits.max_entries, DEFAULT_BODY_BUFFER_ENTRIES);
    assert_eq!(limits.max_entries, 128);
    assert_eq!(limits.max_bytes, DEFAULT_BODY_BUFFER_BYTES);
    assert_eq!(limits.max_bytes, 2 * 1024 * 1024);
    let limits = BodyBufferLimits::from_settings(Some(5), Some(10));
    assert_eq!(limits.max_entries, 5);
    assert_eq!(limits.max_bytes, 10);
}
