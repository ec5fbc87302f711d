use std::collections::HashMap;

use obscura::fetch::{
    deliver, handle, response_body_reply, stream_failure_message, FetchAction,
    FetchInterceptState, FetchParams, FetchResolution, PausedRequest, StreamFailure,
};
use obscura::scripted_response::{
    record_scripted_response, BodyBufferLimits, ScriptedNetworkState, ScriptedResponse,
};
use tokio::sync::oneshot;

fn params() -> FetchParams {
    FetchParams {
        request_id: None,
        patterns: None,
        url: None,
        method: None,
        post_data: None,
        response_code: None,
        response_headers: None,
        body: None,
        error_reason: None,
    }
}

fn with_id(id: &str) -> FetchParams {
    FetchParams { request_id: Some(id.to_string()), ..params() }
}

fn paused(id: &str) -> (PausedRequest, oneshot::Receiver<FetchResolution>) {
    let (tx, rx) = oneshot::channel();
    (
        PausedRequest {
            request_id: id.to_string(),
            url: format!("https://example.test/{id}"),
            method: "GET".to_string(),
            headers: HashMap::new(),
            resource_type: "Fetch".to_string(),
            resolver: tx,
        },
        rx,
    )
}

fn run(method: &str, p: FetchParams, state: &mut FetchInterceptState) -> Result<FetchAction, String> {
    let outcome = handle(method, p, state);
    if let Ok(FetchAction::Disabled { deliveries } | FetchAction::Resolved { deliveries }) = outcome {
        deliver(deliveries);
        return Ok(FetchAction::Enabled);
    }
    outcome
}

#[test]
fn get_response_body_returns_cached_page_body() {
    let mut page = ScriptedNetworkState::new();
    let headers = HashMap::new();
    let request_id = record_scripted_response(
        &mut page,
        None,
        ScriptedResponse {
            url: "data:text/html,<html><body>fetch body</body></html>",
            method: "GET",
            request_headers: &headers,
            request_body: b"",
            status: 200,
            headers: &headers,
            body: b"<html><body>fetch body</body></html>",
        },
        BodyBufferLimits::from_settings(None, None),
        0,
    );
    let mut state = FetchInterceptState::new();
    let lookup = match handle("getResponseBody", with_id(&request_id), &mut state) {
        Ok(FetchAction::LookupResponseBody { request_id }) => request_id,
        _ => panic!("Fetch.getResponseBody should name the body to look up"),
    };
    let result = response_body_reply(&lookup, page.response_body(&lookup).cloned())
        .expect("Fetch.getResponseBody should return the cached body");
    assert_eq!(result.body, "<html><body>fetch body</body></html>");
    assert_eq!(result.base64_encoded, false);
}

#[test]
fn get_response_body_errors_for_unknown_request() {
    let mut state = FetchInterceptState::new();
    let page = ScriptedNetworkState::new();
    let lookup = match handle("getResponseBody", with_id("missing"), &mut state) {
        Ok(FetchAction::LookupResponseBody { request_id }) => request_id,
        _ => panic!("Fetch.getResponseBody should name the body to look up"),
    };
    let error = response_body_reply(&lookup, page.response_body(&lookup).cloned())
        .expect_err("unknown Fetch request should fail");
    assert!(error.contains("missing"));
    assert_eq!(error, "No response body found for Fetch requestId missing");
}

#[test]
fn enable_defaults_to_every_url() {
    let mut state = FetchInterceptState::new();
    assert!(!state.enabled());
    assert!(matches!(handle("enable", params(), &mut state), Ok(FetchAction::Enabled)));
    assert!(state.enabled());
    assert_eq!(state.patterns(), &vec!["*".to_string()]);
}

#[test]
fn enable_keeps_given_url_patterns() {
    let mut state = FetchInterceptState::new();
    let p = FetchParams {
        patterns: Some(vec![Some("*.js".into()), None, Some("*/api/*".into())]),
        ..params()
    };
    handle("enable", p, &mut state).unwrap();
    assert_eq!(state.patterns(), &vec!["*.js".to_string(), "*/api/*".to_string()]);
    let p = FetchParams { patterns: Some(vec![]), ..params() };
    handle("enable", p, &mut state).unwrap();
    assert!(state.patterns().is_empty());
}

#[test]
fn disable_lets_every_paused_request_continue() {
    let mut state = FetchInterceptState::new();
    handle("enable", params(), &mut state).unwrap();
    let (a, mut rx_a) = paused("interception-1");
    let (b, mut rx_b) = paused("interception-2");
    state.pause(a);
    state.pause(b);
    assert_eq!(state.paused_count(), 2);
    let deliveries = match handle("disable", params(), &mut state) {
        Ok(FetchAction::Disabled { deliveries }) => deliveries,
        _ => panic!("disable should release the paused requests"),
    };
    assert_eq!(deliveries.len(), 2);
    assert_eq!(deliveries[0].paused.request_id, "interception-1");
    assert_eq!(deliveries[1].paused.request_id, "interception-2");
    deliver(deliveries);
    for rx in [&mut rx_a, &mut rx_b] {
        match rx.try_recv().expect("a resolution") {
            FetchResolution::Continue { url, method, headers, post_data } => {
                assert!(url.is_none() && method.is_none() && headers.is_none() && post_data.is_none());
            }
            other => panic!("expected an unchanged continuation, got {other:?}"),
        }
    }
    assert!(!state.enabled());
    assert!(state.patterns().is_empty());
    assert_eq!(state.paused_count(), 0);
}

#[test]
fn continue_request_rewrites_and_resolves_once() {
    let mut state = FetchInterceptState::new();
    let (a, mut rx) = paused("interception-1");
    state.pause(a);
    let p = FetchParams {
        url: Some("https://example.test/other".into()),
        method: Some("POST".into()),
        post_data: Some("x=1".into()),
        ..with_id("interception-1")
    };
    run("continueRequest", p, &mut state).unwrap();
    match rx.try_recv().unwrap() {
        FetchResolution::Continue { url, method, headers, post_data } => {
            assert_eq!(url.as_deref(), Some("https://example.test/other"));
            assert_eq!(method.as_deref(), Some("POST"));
            assert!(headers.is_none());
            assert_eq!(post_data.as_deref(), Some("x=1"));
        }
        other => panic!("unexpected {other:?}"),
    }
    assert!(!state.is_paused("interception-1"));
    // A second resolution of the same request finds nothing to resolve.
    match handle("failRequest", with_id("interception-1"), &mut state) {
        Ok(FetchAction::Resolved { deliveries }) => assert!(deliveries.is_empty()),
        _ => panic!("a resolution of an unknown request is accepted and ignored"),
    }
}

#[test]
fn fulfill_request_merges_headers_and_defaults() {
    let mut state = FetchInterceptState::new();
    let (a, mut rx) = paused("interception-3");
    let (b, _rx_b) = paused("interception-4");
    state.pause(a);
    state.pause(b);
    let p = FetchParams {
        response_code: Some(65536 + 204),
        response_headers: Some(vec![
            (Some("content-type".into()), Some("text/plain".into())),
            (Some("x-missing-value".into()), None),
            (Some("content-type".into()), Some("application/json".into())),
            (Some("x-other".into()), Some("1".into())),
        ]),
        ..with_id("interception-3")
    };
    run("fulfillRequest", p, &mut state).unwrap();
    match rx.try_recv().unwrap() {
        FetchResolution::Fulfill { status, headers, body } => {
            assert_eq!(status, 204);
            assert_eq!(body, "");
            let mut headers = headers;
            headers.sort();
            assert_eq!(
                headers,
                vec![
                    ("content-type".to_string(), "application/json".to_string()),
                    ("x-other".to_string(), "1".to_string()),
                ]
            );
        }
        other => panic!("unexpected {other:?}"),
    }
    assert!(!state.is_paused("interception-3"));
    assert!(state.is_paused("interception-4"));
}

#[test]
fn fulfill_request_defaults_to_status_200() {
    let mut state = FetchInterceptState::new();
    let (a, mut rx) = paused("interception-5");
    state.pause(a);
    let p = FetchParams { body: Some("PGh0bWw+".into()), ..with_id("interception-5") };
    run("fulfillRequest", p, &mut state).unwrap();
    match rx.try_recv().unwrap() {
        FetchResolution::Fulfill { status, headers, body } => {
            assert_eq!(status, 200);
            assert!(headers.is_empty());
            assert_eq!(body, "PGh0bWw+");
        }
        other => panic!("unexpected {other:?}"),
    }
}

#[test]
fn fail_request_defaults_to_failed() {
    let mut state = FetchInterceptState::new();
    let (a, mut rx) = paused("interception-6");
    let (b, mut rx_b) = paused("interception-7");
    state.pause(a);
    state.pause(b);
    run("failRequest", with_id("interception-6"), &mut state).unwrap();
    match rx.try_recv().unwrap() {
        FetchResolution::Fail { reason } => assert_eq!(reason, "Failed"),
        other => panic!("unexpected {other:?}"),
    }
    let p = FetchParams { error_reason: Some("BlockedByClient".into()), ..with_id("interception-7") };
    run("failRequest", p, &mut state).unwrap();
    match rx_b.try_recv().unwrap() {
        FetchResolution::Fail { reason } => assert_eq!(reason, "BlockedByClient"),
        other => panic!("unexpected {other:?}"),
    }
}

#[test]
fn missing_request_id_is_an_error_and_changes_nothing() {
    let mut state = FetchInterceptState::new();
    let (a, _rx) = paused("interception-1");
    state.pause(a);
    for method in ["continueRequest", "fulfillRequest", "failRequest"] {
        assert_eq!(handle(method, params(), &mut state).err().as_deref(), Some("requestId required"));
    }
    assert_eq!(
        handle("getResponseBody", params(), &mut state).err().as_deref(),
        Some("Fetch.getResponseBody requires requestId")
    );
    assert_eq!(
        handle("takeResponseBodyAsStream", params(), &mut state).err().as_deref(),
        Some("Fetch.takeResponseBodyAsStream requires requestId")
    );
    assert_eq!(state.paused_count(), 1);
}

#[test]
fn unknown_fetch_method_is_an_error() {
    let mut state = FetchInterceptState::new();
    assert_eq!(
        handle("frobnicate", params(), &mut state).err().as_deref(),
        Some("Unknown Fetch method: frobnicate")
    );
}

#[test]
fn take_response_body_names_the_request() {
    let mut state = FetchInterceptState::new();
    match handle("takeResponseBodyAsStream", with_id("fetch-9"), &mut state) {
        Ok(FetchAction::TakeResponseBody { request_id }) => assert_eq!(request_id, "fetch-9"),
        _ => panic!("expected a stream request"),
    }
    assert_eq!(stream_failure_message("fetch-9", StreamFailure::NoPage), "No page");
    assert_eq!(
        stream_failure_message("fetch-9", StreamFailure::NoCachedBody),
        "Fetch.takeResponseBodyAsStream: no cached body for fetch-9"
    );
    assert_eq!(
        stream_failure_message("fetch-9", StreamFailure::Refused { error: "too many streams".into() }),
        "Fetch.takeResponseBodyAsStream: too many streams"
    );
}

#[test]
fn interception_ids_count_up() {
    let mut state = FetchInterceptState::new();
    assert_eq!(state.next_request_id(), "interception-1");
    assert_eq!(state.next_request_id(), "interception-2");
    for _ in 0..8 {
        state.next_request_id();
    }
    assert_eq!(state.next_request_id(), "interception-11");
}

#[test]
fn pausing_an_id_twice_replaces_the_first() {
    let mut state = FetchInterceptState::new();
    let (a, mut rx_a) = paused("interception-1");
    let (b, mut rx_b) = paused("interception-1");
    state.pause(a);
    state.pause(b);
    assert_eq!(state.paused_count(), 1);
    // The replaced request's channel is closed.
    assert!(rx_a.try_recv().is_err());
    run("failRequest", with_id("interception-1"), &mut state).unwrap();
    assert!(matches!(rx_b.try_recv(), Ok(FetchResolution::Fail { .. })));
}

#[test]
fn a_gone_waiter_does_not_stop_delivery() {
    let mut state = FetchInterceptState::new();
    let (a, rx_a) = paused("interception-1");
    let (b, mut rx_b) = paused("interception-2");
    state.pause(a);
    state.pause(b);
    drop(rx_a);
    run("disable", params(), &mut state).unwrap();
    assert!(matches!(rx_b.try_recv(), Ok(FetchResolution::Continue { .. })));
}
