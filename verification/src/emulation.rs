//! The `Emulation` domain: viewport size, user agent and client hints.
//!
//! Commands that only matter to a real rendering engine (touch, media,
//! timezone, locale, CPU throttling and the like) are accepted and have no
//! effect.
use vstd::prelude::*;
use crate::text::{concat, str_eq};

verus! {

/// The parameters of an `Emulation` command, as plain values read from its
/// JSON `params` (a field that is absent or of another type reads as
/// `None`). `platform` and `platform_version` come from the
/// `userAgentMetadata` object.
pub struct EmulationParams {
    pub width: Option<u64>,
    pub height: Option<u64>,
    pub user_agent: Option<String>,
    pub accept_language: Option<String>,
    pub platform: Option<String>,
    pub platform_version: Option<String>,
}

/// What the caller does to the session's page (when it has one) after an
/// `Emulation` command that succeeded; the reply is `{}`.
#[derive(Debug)]
pub enum EmulationAction {
    /// Resize the viewport. The device scale factor is the command's
    /// `deviceScaleFactor` (2 when absent) when `scale_from_params`, else 2.
    Viewport { width: u32, height: u32, scale_from_params: bool },
    /// Use this user agent (when given), add these extra request headers
    /// in order, and remember the command's parameters as the override.
    UserAgentOverride { user_agent: Option<String>, headers: Vec<(String, String)> },
    /// Nothing to do.
    Accepted,
}

/// The contents of an [`EmulationAction`].
pub enum EmulationActionView {
    Viewport { width: u32, height: u32, scale_from_params: bool },
    UserAgentOverride { user_agent: Option<Seq<char>>, headers: Seq<(Seq<char>, Seq<char>)> },
    Accepted,
}

/// The characters of an optional string.
pub open spec fn opt_chars(o: Option<String>) -> Option<Seq<char>> {
    match o {
        Some(s) => Some(s@),
        None => None,
    }
}

impl View for EmulationAction {
    type V = EmulationActionView;

    open spec fn view(&self) -> EmulationActionView {
        match self {
            EmulationAction::Viewport { width, height, scale_from_params } => EmulationActionView::Viewport {
                width: *width,
                height: *height,
                scale_from_params: *scale_from_params,
            },
            EmulationAction::UserAgentOverride { user_agent, headers } => EmulationActionView::UserAgentOverride {
                user_agent: opt_chars(*user_agent),
                headers: pairs_of(headers@),
            },
            EmulationAction::Accepted => EmulationActionView::Accepted,
        }
    }
}

/// Header pairs as characters, in order.
pub open spec fn pairs_of(v: Seq<(String, String)>) -> Seq<(Seq<char>, Seq<char>)> {
    v.map_values(|p: (String, String)| (p.0@, p.1@))
}

/// The contents of [`EmulationParams`].
pub struct EmulationParamsView {
    pub width: Option<u64>,
    pub height: Option<u64>,
    pub user_agent: Option<Seq<char>>,
    pub accept_language: Option<Seq<char>>,
    pub platform: Option<Seq<char>>,
    pub platform_version: Option<Seq<char>>,
}

impl View for EmulationParams {
    type V = EmulationParamsView;

    open spec fn view(&self) -> EmulationParamsView {
        EmulationParamsView {
            width: self.width,
            height: self.height,
            user_agent: opt_chars(self.user_agent),
            accept_language: opt_chars(self.accept_language),
            platform: opt_chars(self.platform),
            platform_version: opt_chars(self.platform_version),
        }
    }
}

/// Default viewport width and height.
pub const DEFAULT_WIDTH: u32 = 1920;
pub const DEFAULT_HEIGHT: u32 = 1000;

/// A requested dimension, `default` when absent, capped at `u32::MAX`.
pub open spec fn dimension(requested: Option<u64>, default: u32) -> u32 {
    match requested {
        Some(v) => if v > u32::MAX { u32::MAX } else { v as u32 },
        None => default,
    }
}

/// `s` in double quotes, as client-hint header values are written.
pub open spec fn quoted(s: Seq<char>) -> Seq<char> {
    "\""@ + s + "\""@
}

/// The extra request headers that a user-agent override sets, in order:
/// `accept-language`, then the quoted `sec-ch-ua-platform` and
/// `sec-ch-ua-platform-version` client hints, each when given.
pub open spec fn override_headers(p: EmulationParamsView) -> Seq<(Seq<char>, Seq<char>)> {
    (match p.accept_language {
        Some(l) => seq![("accept-language"@, l)],
        None => seq![],
    }) + (match p.platform {
        Some(v) => seq![("sec-ch-ua-platform"@, quoted(v))],
        None => seq![],
    }) + (match p.platform_version {
        Some(v) => seq![("sec-ch-ua-platform-version"@, quoted(v))],
        None => seq![],
    })
}

/// Whether `method` is accepted without effect.
pub open spec fn accepted_without_effect(method: Seq<char>) -> bool {
    ||| method == "setTouchEmulationEnabled"@
    ||| method == "setEmulatedMedia"@
    ||| method == "setTimezoneOverride"@
    ||| method == "setLocaleOverride"@
    ||| method == "setCPUThrottlingRate"@
    ||| method == "setScriptExecutionDisabled"@
    ||| method == "setFocusEmulationEnabled"@
    ||| method == "setScrollbarsHidden"@
    ||| method == "setDefaultBackgroundColorOverride"@
}

/// The outcome of `Emulation.<method>` with parameters `p`.
pub open spec fn emulation_step(method: Seq<char>, p: EmulationParamsView) -> Result<EmulationActionView, Seq<char>> {
    if method == "setDeviceMetricsOverride"@ {
        Ok(
            EmulationActionView::Viewport {
                width: dimension(p.width, DEFAULT_WIDTH),
                height: dimension(p.height, DEFAULT_HEIGHT),
                scale_from_params: true,
            },
        )
    } else if method == "clearDeviceMetricsOverride"@ {
        Ok(EmulationActionView::Viewport { width: DEFAULT_WIDTH, height: DEFAULT_HEIGHT, scale_from_params: false })
    } else if method == "setUserAgentOverride"@ {
        Ok(EmulationActionView::UserAgentOverride { user_agent: p.user_agent, headers: override_headers(p) })
    } else if accepted_without_effect(method) {
        Ok(EmulationActionView::Accepted)
    } else {
        Err("Unknown Emulation method: "@ + method)
    }
}

fn dimension_of(requested: Option<u64>, default: u32) -> (r: u32)
    ensures
        r == dimension(requested, default),
{
    match requested {
        Some(v) => if v > 4294967295u64 { 4294967295u32 } else { v as u32 },
        None => default,
    }
}

fn quote(s: &str) -> (r: String)
    ensures
        r@ == quoted(s@),
{
    let mut r = String::from_str("\"");
    r.append(s);
    r.append("\"");
    r
}

fn is_accepted_without_effect(method: &str) -> (r: bool)
    ensures
        r == accepted_without_effect(method@),
{
    str_eq(method, "setTouchEmulationEnabled") || str_eq(method, "setEmulatedMedia") || str_eq(
        method,
        "setTimezoneOverride",
    ) || str_eq(method, "setLocaleOverride") || str_eq(method, "setCPUThrottlingRate") || str_eq(
        method,
        "setScriptExecutionDisabled",
    ) || str_eq(method, "setFocusEmulationEnabled") || str_eq(method, "setScrollbarsHidden")
        || str_eq(method, "setDefaultBackgroundColorOverride")
}

/// Runs `Emulation.<method>` with `params`; see [`emulation_step`].
pub fn handle(method: &str, params: EmulationParams) -> (r: Result<EmulationAction, String>)
    ensures
        (match r {
            Ok(a) => Ok(a@),
            Err(e) => Err(e@),
        }) == emulation_step(method@, params@),
{
    let ghost pv = params@;
    if str_eq(method, "setDeviceMetricsOverride") {
        Ok(
            EmulationAction::Viewport {
                width: dimension_of(params.width, DEFAULT_WIDTH),
                height: dimension_of(params.height, DEFAULT_HEIGHT),
                scale_from_params: true,
            },
        )
    } else if str_eq(method, "clearDeviceMetricsOverride") {
        Ok(EmulationAction::Viewport { width: DEFAULT_WIDTH, height: DEFAULT_HEIGHT, scale_from_params: false })
    } else if str_eq(method, "setUserAgentOverride") {
        let mut headers: Vec<(String, String)> = Vec::new();
        let ghost a = match pv.accept_language {
            Some(l) => seq![("accept-language"@, l)],
            None => seq![],
        };
        let ghost b = match pv.platform {
            Some(v) => seq![("sec-ch-ua-platform"@, quoted(v))],
            None => seq![],
        };
        let ghost c = match pv.platform_version {
            Some(v) => seq![("sec-ch-ua-platform-version"@, quoted(v))],
            None => seq![],
        };
        if let Some(language) = params.accept_language {
            headers.push((String::from_str("accept-language"), language));
        }
        assert(pairs_of(headers@) =~= a);
        if let Some(platform) = &params.platform {
            headers.push((String::from_str("sec-ch-ua-platform"), quote(platform.as_str())));
        }
        assert(pairs_of(headers@) =~= a + b);
        if let Some(version) = &params.platform_version {
            headers.push((String::from_str("sec-ch-ua-platform-version"), quote(version.as_str())));
        }
        assert(pairs_of(headers@) =~= a + b + c);
        let r = EmulationAction::UserAgentOverride { user_agent: params.user_agent, headers };
        assert(Ok::<EmulationActionView, Seq<char>>(r@) == emulation_step(method@, pv));
        Ok(r)
    } else if is_accepted_without_effect(method) {
        Ok(EmulationAction::Accepted)
    } else {
        Err(concat("Unknown Emulation method: ", method))
    }
}

/// A user-agent override sets the user agent it was given, and one extra
/// header for each of `acceptLanguage`, `userAgentMetadata.platform` and
/// `userAgentMetadata.platformVersion` that was given, each independently
/// of the others: `accept-language` with the language as given, and the two
/// client hints with the value in double quotes.
pub proof fn law_user_agent_override_headers(p: EmulationParamsView)
    ensures
        ({
            let out = emulation_step("setUserAgentOverride"@, p);
            &&& out matches Ok(EmulationActionView::UserAgentOverride { user_agent, headers })
            &&& out->Ok_0->user_agent == p.user_agent
            &&& out->Ok_0->headers.len() == (if p.accept_language is Some { 1int } else { 0 }) + (if p.platform is Some {
                1int
            } else {
                0
            }) + (if p.platform_version is Some { 1int } else { 0 })
            &&& (p.accept_language matches Some(l) ==> out->Ok_0->headers.contains(("accept-language"@, l)))
            &&& (p.platform matches Some(v) ==> out->Ok_0->headers.contains(
                ("sec-ch-ua-platform"@, seq!['"'] + v + seq!['"']),
            ))
            &&& (p.platform_version matches Some(v) ==> out->Ok_0->headers.contains(
                ("sec-ch-ua-platform-version"@, seq!['"'] + v + seq!['"']),
            ))
        }),
{
    reveal_strlit("setUserAgentOverride");
    reveal_strlit("setDeviceMetricsOverride");
    reveal_strlit("clearDeviceMetricsOverride");
    reveal_strlit("\"");
    assert("setUserAgentOverride"@ != "setDeviceMetricsOverride"@) by {
        assert("setUserAgentOverride"@.len() != "setDeviceMetricsOverride"@.len());
    }
    assert("setUserAgentOverride"@ != "clearDeviceMetricsOverride"@) by {
        assert("setUserAgentOverride"@.len() != "clearDeviceMetricsOverride"@.len());
    }
    let a = match p.accept_language {
        Some(l) => seq![("accept-language"@, l)],
        None => seq![],
    };
    let b = match p.platform {
        Some(v) => seq![("sec-ch-ua-platform"@, quoted(v))],
        None => seq![],
    };
    let c = match p.platform_version {
        Some(v) => seq![("sec-ch-ua-platform-version"@, quoted(v))],
        None => seq![],
    };
    let h = override_headers(p);
    assert(h == a + b + c);
    if let Some(l) = p.accept_language {
        assert(h[0] == ("accept-language"@, l));
    }
    if let Some(v) = p.platform {
        assert(quoted(v) =~= seq!['"'] + v + seq!['"']);
        assert(h[a.len() as int] == ("sec-ch-ua-platform"@, quoted(v)));
    }
    if let Some(v) = p.platform_version {
        assert(quoted(v) =~= seq!['"'] + v + seq!['"']);
        assert(h[(a.len() + b.len()) as int] == ("sec-ch-ua-platform-version"@, quoted(v)));
    }
}

/// `setDeviceMetricsOverride` sizes the viewport as requested, 1920 by 1000
/// when a dimension is absent, each dimension capped at `u32::MAX`, with the
/// scale factor from the command; `clearDeviceMetricsOverride` restores
/// 1920 by 1000 at the default scale.
pub proof fn law_device_metrics(p: EmulationParamsView)
    ensures
        ({
            let out = emulation_step("setDeviceMetricsOverride"@, p);
            &&& out matches Ok(EmulationActionView::Viewport { width, height, scale_from_params })
            &&& out->Ok_0->scale_from_params
            &&& (p.width is None ==> out->Ok_0->width == 1920)
            &&& (p.width matches Some(w) ==> out->Ok_0->width == (if w <= 4294967295 { w } else { 4294967295 }))
            &&& (p.height is None ==> out->Ok_0->height == 1000)
            &&& (p.height matches Some(h) ==> out->Ok_0->height == (if h <= 4294967295 { h } else { 4294967295 }))
        }),
        emulation_step("clearDeviceMetricsOverride"@, p) == Ok::<EmulationActionView, Seq<char>>(
            EmulationActionView::Viewport { width: 1920, height: 1000, scale_from_params: false },
        ),
{
    reveal_strlit("setDeviceMetricsOverride");
    reveal_strlit("clearDeviceMetricsOverride");
    assert("clearDeviceMetricsOverride"@ != "setDeviceMetricsOverride"@) by {
        assert("clearDeviceMetricsOverride"@.len() != "setDeviceMetricsOverride"@.len());
    }
}

/// The commands that only matter to a rendering engine are accepted and do
/// nothing.
pub proof fn law_engine_only_commands_accepted(m: Seq<char>, p: EmulationParamsView)
    requires
        m == "setTouchEmulationEnabled"@ || m == "setEmulatedMedia"@ || m == "setTimezoneOverride"@
            || m == "setLocaleOverride"@ || m == "setCPUThrottlingRate"@ || m == "setScriptExecutionDisabled"@
            || m == "setFocusEmulationEnabled"@ || m == "setScrollbarsHidden"@
            || m == "setDefaultBackgroundColorOverride"@,
    ensures
        emulation_step(m, p) == Ok::<EmulationActionView, Seq<char>>(EmulationActionView::Accepted),
{
    reveal_strlit("setDeviceMetricsOverride");
    reveal_strlit("clearDeviceMetricsOverride");
    reveal_strlit("setUserAgentOverride");
    reveal_strlit("setTouchEmulationEnabled");
    reveal_strlit("setEmulatedMedia");
    reveal_strlit("setTimezoneOverride");
    reveal_strlit("setLocaleOverride");
    reveal_strlit("setCPUThrottlingRate");
    reveal_strlit("setScriptExecutionDisabled");
    reveal_strlit("setFocusEmulationEnabled");
    reveal_strlit("setScrollbarsHidden");
    reveal_strlit("setDefaultBackgroundColorOverride");
    assert("setTouchEmulationEnabled"@ != "setDeviceMetricsOverride"@) by { assert("setTouchEmulationEnabled"@[3] != "setDeviceMetricsOverride"@[3]); }
    assert("setTouchEmulationEnabled"@ != "clearDeviceMetricsOverride"@) by { assert("setTouchEmulationEnabled"@.len() != "clearDeviceMetricsOverride"@.len()); }
    assert("setTouchEmulationEnabled"@ != "setUserAgentOverride"@) by { assert("setTouchEmulationEnabled"@.len() != "setUserAgentOverride"@.len()); }
    assert("setEmulatedMedia"@ != "setDeviceMetricsOverride"@) by { assert("setEmulatedMedia"@.len() != "setDeviceMetricsOverride"@.len()); }
    assert("setEmulatedMedia"@ != "clearDeviceMetricsOverride"@) by { assert("setEmulatedMedia"@.len() != "clearDeviceMetricsOverride"@.len()); }
    assert("setEmulatedMedia"@ != "setUserAgentOverride"@) by { assert("setEmulatedMedia"@.len() != "setUserAgentOverride"@.len()); }
    assert("setTimezoneOverride"@ != "setDeviceMetricsOverride"@) by { assert("setTimezoneOverride"@.len() != "setDeviceMetricsOverride"@.len()); }
    assert("setTimezoneOverride"@ != "clearDeviceMetricsOverride"@) by { assert("setTimezoneOverride"@.len() != "clearDeviceMetricsOverride"@.len()); }
    assert("setTimezoneOverride"@ != "setUserAgentOverride"@) by { assert("setTimezoneOverride"@.len() != "setUserAgentOverride"@.len()); }
    assert("setLocaleOverride"@ != "setDeviceMetricsOverride"@) by { assert("setLocaleOverride"@.len() != "setDeviceMetricsOverride"@.len()); }
    assert("setLocaleOverride"@ != "clearDeviceMetricsOverride"@) by { assert("setLocaleOverride"@.len() != "clearDeviceMetricsOverride"@.len()); }
    assert("setLocaleOverride"@ != "setUserAgentOverride"@) by { assert("setLocaleOverride"@.len() != "setUserAgentOverride"@.len()); }
    assert("setCPUThrottlingRate"@ != "setDeviceMetricsOverride"@) by { assert("setCPUThrottlingRate"@.len() != "setDeviceMetricsOverride"@.len()); }
    assert("setCPUThrottlingRate"@ != "clearDeviceMetricsOverride"@) by { assert("setCPUThrottlingRate"@.len() != "clearDeviceMetricsOverride"@.len()); }
    assert("setCPUThrottlingRate"@ != "setUserAgentOverride"@) by { assert("setCPUThrottlingRate"@[3] != "setUserAgentOverride"@[3]); }
    assert("setScriptExecutionDisabled"@ != "setDeviceMetricsOverride"@) by { assert("setScriptExecutionDisabled"@.len() != "setDeviceMetricsOverride"@.len()); }
    assert("setScriptExecutionDisabled"@ != "clearDeviceMetricsOverride"@) by { assert("setScriptExecutionDisabled"@[0] != "clearDeviceMetricsOverride"@[0]); }
    assert("setScriptExecutionDisabled"@ != "setUserAgentOverride"@) by { assert("setScriptExecutionDisabled"@.len() != "setUserAgentOverride"@.len()); }
    assert("setFocusEmulationEnabled"@ != "setDeviceMetricsOverride"@) by { assert("setFocusEmulationEnabled"@[3] != "setDeviceMetricsOverride"@[3]); }
    assert("setFocusEmulationEnabled"@ != "clearDeviceMetricsOverride"@) by { assert("setFocusEmulationEnabled"@.len() != "clearDeviceMetricsOverride"@.len()); }
    assert("setFocusEmulationEnabled"@ != "setUserAgentOverride"@) by { assert("setFocusEmulationEnabled"@.len() != "setUserAgentOverride"@.len()); }
    assert("setScrollbarsHidden"@ != "setDeviceMetricsOverride"@) by { assert("setScrollbarsHidden"@.len() != "setDeviceMetricsOverride"@.len()); }
    assert("setScrollbarsHidden"@ != "clearDeviceMetricsOverride"@) by { assert("setScrollbarsHidden"@.len() != "clearDeviceMetricsOverride"@.len()); }
    assert("setScrollbarsHidden"@ != "setUserAgentOverride"@) by { assert("setScrollbarsHidden"@.len() != "setUserAgentOverride"@.len()); }
    assert("setDefaultBackgroundColorOverride"@ != "setDeviceMetricsOverride"@) by { assert("setDefaultBackgroundColorOverride"@.len() != "setDeviceMetricsOverride"@.len()); }
    assert("setDefaultBackgroundColorOverride"@ != "clearDeviceMetricsOverride"@) by { assert("setDefaultBackgroundColorOverride"@.len() != "clearDeviceMetricsOverride"@.len()); }
    assert("setDefaultBackgroundColorOverride"@ != "setUserAgentOverride"@) by { assert("setDefaultBackgroundColorOverride"@.len() != "setUserAgentOverride"@.len()); }
}

} // verus!
