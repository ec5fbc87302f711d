use obscura::emulation::{handle, EmulationAction, EmulationParams};

fn params() -> EmulationParams {
    EmulationParams {
        width: None,
        height: None,
        user_agent: None,
        accept_language: None,
        platform: None,
        platform_version: None,
    }
}

#[test]
fn set_user_agent_override_accepts_playwright_context_params() {
    let result = handle(
        "setUserAgentOverride",
        EmulationParams {
            user_agent: Some("Playwright-Test-UA/1.0".into()),
            accept_language: Some("en-US".into()),
            platform: Some("macOS".into()),
            platform_version: Some("14.0.0".into()),
            ..params()
        },
    )
    .expect("setUserAgentOverride should be accepted");
    match result {
        EmulationAction::UserAgentOverride { user_agent, headers } => {
            assert_eq!(user_agent.as_deref(), Some("Playwright-Test-UA/1.0"));
            let get = |name: &str| {
                headers.iter().find(|(n, _)| n == name).map(|(_, v)| v.as_str())
            };
            assert_eq!(get("accept-language"), Some("en-US"));
            assert_eq!(get("sec-ch-ua-platform"), Some("\"macOS\""));
            assert_eq!(get("sec-ch-ua-platform-version"), Some("\"14.0.0\""));
            assert_eq!(headers.len(), 3);
        }
        other => panic!("unexpected {other:?}"),
    }
}

#[test]
fn user_agent_override_without_metadata_sets_only_given_parts() {
    match handle("setUserAgentOverride", params()).unwrap() {
        EmulationAction::UserAgentOverride { user_agent, headers } => {
            assert!(user_agent.is_none());
            assert!(headers.is_empty());
        }
        other => panic!("unexpected {other:?}"),
    }
}

#[test]
fn device_metrics_default_and_cap() {
    match handle("setDeviceMetricsOverride", params()).unwrap() {
        EmulationAction::Viewport { width, height, scale_from_params } => {
            assert_eq!((width, height), (1920, 1000));
            assert!(scale_from_params);
        }
        other => panic!("unexpected {other:?}"),
    }
    let p = EmulationParams { width: Some(390), height: Some(u64::MAX), ..params() };
    match handle("setDeviceMetricsOverride", p).unwrap() {
        EmulationAction::Viewport { width, height, .. } => {
            assert_eq!(width, 390);
            assert_eq!(height, u32::MAX);
        }
        other => panic!("unexpected {other:?}"),
    }
}

#[test]
fn clear_device_metrics_restores_default_viewport() {
    match handle("clearDeviceMetricsOverride", params()).unwrap() {
        EmulationAction::Viewport { width, height, scale_from_params } => {
            assert_eq!((width, height), (1920, 1000));
            assert!(!scale_from_params);
        }
        other => panic!("unexpected {other:?}"),
    }
}

#[test]
fn engine_only_commands_are_accepted() {
    for method in [
        "setTouchEmulationEnabled",
        "setEmulatedMedia",
        "setTimezoneOverride",
        "setLocaleOverride",
        "setCPUThrottlingRate",
        "setScriptExecutionDisabled",
        "setFocusEmulationEnabled",
        "setScrollbarsHidden",
        "setDefaultBackgroundColorOverride",
    ] {
        assert!(matches!(handle(method, params()), Ok(EmulationAction::Accepted)), "{method}");
    }
}

#[test]
fn unknown_emulation_method_is_an_error() {
    assert_eq!(
        handle("setGeolocationOverride", params()).err().as_deref(),
        Some("Unknown Emulation method: setGeolocationOverride")
    );
}
