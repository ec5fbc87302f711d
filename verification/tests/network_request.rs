use std::collections::HashMap;

use base64::Engine as _;
use obscura::network_request::{request_payload, NetworkEvent};

fn event(post_data: Option<String>, post_data_bytes: Option<Vec<u8>>) -> NetworkEvent {
    NetworkEvent {
        request_id: "fetch-1".into(),
        url: "https://example.test/upload".into(),
        method: "POST".into(),
        headers: Default::default(),
        post_data,
        post_data_bytes,
        resource_type: "Fetch".into(),
        status: 200,
        response_headers: Default::default(),
        body_size: 0,
    }
}

#[test]
fn playwright_post_entries_preserve_binary_upload_bytes() {
    let event = event(
        Some(String::from_utf8_lossy(&[0, 255, 128]).into_owned()),
        Some(vec![0, 255, 128]),
    );
    let request = request_payload(&event);
    assert_eq!(request.has_post_data, true);
    assert_eq!(request.post_data_entries.as_ref().unwrap()[0].bytes, "AP+A");
}

#[test]
fn text_body_is_sent_as_post_data_and_entries() {
    let request = request_payload(&event(Some("cursor=next&count=12".into()), None));
    assert!(request.has_post_data);
    assert_eq!(request.post_data.as_deref(), Some("cursor=next&count=12"));
    let entries = request.post_data_entries.unwrap();
    assert_eq!(entries.len(), 1);
    let decoded = base64::engine::general_purpose::STANDARD
        .decode(&entries[0].bytes)
        .unwrap();
    assert_eq!(decoded, b"cursor=next&count=12");
}

#[test]
fn request_without_body_has_no_post_data() {
    let mut headers = HashMap::new();
    headers.insert("x-fixture".to_string(), "timeline".to_string());
    let mut e = event(None, None);
    e.method = "GET".into();
    e.headers = headers.clone();
    let request = request_payload(&e);
    assert!(!request.has_post_data);
    assert!(request.post_data.is_none());
    assert!(request.post_data_entries.is_none());
    assert_eq!(request.url, "https://example.test/upload");
    assert_eq!(request.method, "GET");
    assert_eq!(request.headers, headers);
}

#[test]
fn raw_bytes_without_text_still_count_as_post_data() {
    let request = request_payload(&event(None, Some(vec![1, 2, 3, 4])));
    assert!(request.has_post_data);
    assert!(request.post_data.is_none());
    assert_eq!(request.post_data_entries.unwrap()[0].bytes, "AQIDBA==");
}
