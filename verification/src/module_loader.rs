//! ES module loading for page scripts: which URL a module specifier is
//! resolved against, and what a fetched module response becomes.
use vstd::prelude::*;
use crate::encoding::{string_from_utf8_lossy, utf8_lossy};
use crate::text::{decimal, push_decimal, str_eq};

verus! {

/// Loads the ES modules that a page's scripts import. `state` is the page's
/// script state, through which modules are fetched with the page's own HTTP
/// client when it has one.
pub struct ObscuraModuleLoader<S> {
    pub base_url: String,
    state: S,
}

/// Whether a module imported from `referrer` is resolved against the page's
/// base URL: when the referrer is empty, a pseudo-URL such as
/// `<anonymous>`, `.`, or `about:blank`.
pub open spec fn uses_base_url(referrer: Seq<char>) -> bool {
    ||| referrer.len() == 0
    ||| referrer[0] == '<'
    ||| referrer == "."@
    ||| referrer == "about:blank"@
}

impl<S> ObscuraModuleLoader<S> {
    /// The script state that modules are fetched through.
    pub closed spec fn state(&self) -> S {
        self.state
    }

    /// The page's base URL.
    pub closed spec fn base(&self) -> Seq<char> {
        self.base_url@
    }

    /// A loader for a page at `base_url`.
    pub fn new(base_url: &str, state: S) -> (r: Self)
        ensures
            r.base() == base_url@,
            r.state() == state,
    {
        ObscuraModuleLoader { base_url: String::from_str(base_url), state }
    }

    /// The script state that modules are fetched through.
    pub fn shared_state(&self) -> (r: &S)
        ensures
            *r == self.state(),
    {
        &self.state
    }

    /// The URL that a specifier imported from `referrer` is resolved
    /// against: the page's base URL, or the referrer itself when it is a
    /// real URL.
    pub fn resolution_base<'a>(&'a self, referrer: &'a str) -> (r: &'a str)
        ensures
            r@ == (if uses_base_url(referrer@) { self.base() } else { referrer@ }),
    {
        if referrer.is_empty() || referrer.get_char(0) == '<' || str_eq(referrer, ".") || str_eq(
            referrer,
            "about:blank",
        ) {
            self.base_url.as_str()
        } else {
            referrer
        }
    }
}

/// Whether an HTTP status means success (`200..300`).
pub open spec fn status_ok(status: u16) -> bool {
    200 <= status < 300
}

/// The module source that a fetched response gives: its body decoded as
/// UTF-8 (invalid sequences replaced) when the status is a success, else
/// the error `Module <url> returned HTTP <status>`.
pub fn module_source_from_response(url: &str, status: u16, body: &[u8]) -> (r: Result<String, String>)
    ensures
        r is Ok <==> status_ok(status),
        r matches Ok(code) ==> code@ == utf8_lossy(body@),
        r matches Err(e) ==> e@ == "Module "@ + url@ + " returned HTTP "@ + decimal(status as nat),
{
    if 200 <= status && status < 300 {
        Ok(string_from_utf8_lossy(body))
    } else {
        let mut e = String::from_str("Module ");
        e.append(url);
        e.append(" returned HTTP ");
        push_decimal(&mut e, status as u64);
        Err(e)
    }
}

} // verus!
