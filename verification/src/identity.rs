//! The `x-obscura-context` identity header of the CDP WebSocket upgrade.
//!
//! A client that drives several accounts through one process gives each
//! connection its own browser identity in this header: base64url-encoded
//! JSON naming a fingerprint seed, the browser profile, the operating system
//! and an optional proxy, timezone and location. A header that does not
//! describe a supported identity is refused, never replaced by the shared
//! default identity; a request without the header keeps the default.
use vstd::prelude::*;
use vstd::string::StringSliceAdditionalSpecFns;
use vstd::utf8::*;
use vstd::slice::slice_subrange;
use crate::encoding::{b64_decode_either, decode_url_safe_either, str_from_utf8};
use crate::text::{lemma_char_ascii, lemma_trim_encoded_len, str_eq, trim, trim_whitespace};

verus! {

/// Upper bound on the header block: twice the longest context value.
pub const MAX_HEADER_VALUE_BYTES: usize = 4096;
/// Upper bound on the decoded JSON document.
pub const MAX_DECODED_CONTEXT_BYTES: usize = 4096;
/// Upper bound on the fingerprint seed.
pub const MAX_SEED_BYTES: usize = 256;
/// Upper bound on the proxy URL.
pub const MAX_PROXY_BYTES: usize = 2048;
/// Upper bound on the timezone name.
pub const MAX_TIMEZONE_BYTES: usize = 128;

/// The one error of this module. It carries nothing of the request, so
/// that no part of a rejected header (a proxy password, a seed) can reach a
/// log or a reply.
#[derive(Clone, Copy, Debug, PartialEq, Eq, Structural)]
pub struct InvalidContext;

impl InvalidContext {
    /// The text of the error: `invalid browser context`.
    pub fn message(&self) -> (r: String)
        ensures
            r@ == "invalid browser context"@,
    {
        String::from_str("invalid browser context")
    }
}

/// `\r`, `\n`, `:`.
pub open spec fn cr() -> u8 { 13u8 }
pub open spec fn lf() -> u8 { 10u8 }
pub open spec fn colon() -> u8 { 58u8 }

/// Whether a line break `\r\n` starts at `i`.
pub open spec fn crlf_at(s: Seq<u8>, i: int) -> bool {
    0 <= i && i + 1 < s.len() && s[i] == cr() && s[i + 1] == lf()
}

/// Whether the blank line `\r\n\r\n` that ends a header block starts at `i`.
pub open spec fn blank_line_at(s: Seq<u8>, i: int) -> bool {
    crlf_at(s, i) && crlf_at(s, i + 2)
}

/// The first position at or after `from` where `\r\n\r\n` starts.
pub open spec fn find_blank_line(s: Seq<u8>, from: int) -> Option<int>
    decreases s.len() - from,
{
    if from < 0 || from + 4 > s.len() {
        None
    } else if blank_line_at(s, from) {
        Some(from)
    } else {
        find_blank_line(s, from + 1)
    }
}

/// The first position at or after `from` where `\r\n` starts.
pub open spec fn find_crlf(s: Seq<u8>, from: int) -> Option<int>
    decreases s.len() - from,
{
    if from < 0 || from + 2 > s.len() {
        None
    } else if crlf_at(s, from) {
        Some(from)
    } else {
        find_crlf(s, from + 1)
    }
}

/// The end of the line that starts at `start`: its `\r\n`, or the end of
/// `s` when no line break follows.
pub open spec fn line_end(s: Seq<u8>, start: int) -> int {
    match find_crlf(s, start) {
        Some(e) => e,
        None => s.len() as int,
    }
}

/// The first `:` in `s[from..to]`.
pub open spec fn find_colon(s: Seq<u8>, from: int, to: int) -> Option<int>
    decreases to - from,
{
    if from >= to {
        None
    } else if s[from] == colon() {
        Some(from)
    } else {
        find_colon(s, from + 1, to)
    }
}

/// ASCII lower case of a byte.
pub open spec fn ascii_lower(b: u8) -> u8 {
    if 65 <= b <= 90 { (b + 32) as u8 } else { b }
}

/// Equality up to ASCII case, byte by byte.
pub open spec fn eq_ignore_ascii_case(a: Seq<u8>, b: Seq<u8>) -> bool {
    a.len() == b.len() && forall|i: int| 0 <= i < a.len() ==> ascii_lower(a[i]) == ascii_lower(b[i])
}

/// The header name `x-obscura-context`.
pub open spec fn context_header_name() -> Seq<u8> {
    seq![120u8, 45, 111, 98, 115, 99, 117, 114, 97, 45, 99, 111, 110, 116, 101, 120, 116]
}

/// `GET `.
pub open spec fn get_prefix() -> Seq<u8> {
    seq![71u8, 69, 84, 32]
}

/// The request line (up to the first line break) starts with `GET `.
pub open spec fn request_line_ok(h: Seq<u8>) -> bool {
    line_end(h, 0) >= 4 && h.subrange(0, 4) == get_prefix()
}

/// The value of the header line whose `:` is at `colon` and which ends at
/// `end`: the text after the colon without surrounding whitespace.
pub open spec fn header_value(h: Seq<u8>, colon: int, end: int) -> Seq<char> {
    trim(decode_utf8(h.subrange(colon + 1, end)))
}

/// A context value must be non-empty and at most 4096 bytes long.
pub open spec fn acceptable_value(v: Seq<char>) -> bool {
    v.len() > 0 && encode_utf8(v).len() <= MAX_HEADER_VALUE_BYTES
}

/// Reads the header lines of `h` from the line that starts at `start` up
/// to the first empty line, with `found` the context value met so far.
/// Every line must hold a `:`; the context header may occur only once and
/// must have an acceptable value.
pub open spec fn scan_header_lines(h: Seq<u8>, start: int, found: Option<Seq<char>>) -> Result<
    Option<Seq<char>>,
    InvalidContext,
>
    decreases h.len() - start,
{
    if start < 0 || start > h.len() {
        Ok(found)
    } else {
        let end = line_end(h, start);
        if end <= start {
            Ok(found)
        } else {
            match find_colon(h, start, end) {
                None => Err(InvalidContext),
                Some(c) => {
                    let is_context = eq_ignore_ascii_case(h.subrange(start, c), context_header_name());
                    if is_context && found is Some {
                        Err(InvalidContext)
                    } else if is_context && !acceptable_value(header_value(h, c, end)) {
                        Err(InvalidContext)
                    } else {
                        let next = if is_context { Some(header_value(h, c, end)) } else { found };
                        if end + 2 <= h.len() {
                            scan_header_lines(h, end + 2, next)
                        } else {
                            Ok(next)
                        }
                    }
                },
            }
        }
    }
}

/// The context header value of an upgrade request, or `Ok(None)` when the
/// request has no such header. The request must hold a complete header
/// block (ended by an empty line) of at most 8192 bytes, valid UTF-8, whose
/// request line starts with `GET `.
pub open spec fn context_value_of(r: Seq<u8>) -> Result<Option<Seq<char>>, InvalidContext> {
    match find_blank_line(r, 0) {
        None => Err(InvalidContext),
        Some(i) => {
            let h = r.subrange(0, i + 4);
            if i + 4 > 2 * MAX_HEADER_VALUE_BYTES {
                Err(InvalidContext)
            } else if !valid_utf8(h) {
                Err(InvalidContext)
            } else if !request_line_ok(h) {
                Err(InvalidContext)
            } else {
                scan_header_lines(h, line_end(h, 0) + 2, None)
            }
        },
    }
}

/// The decoded JSON document that the context header carries: the value
/// is base64url, unpadded or padded, and decodes to 1 to 4096 bytes.
pub open spec fn context_payload_of(r: Seq<u8>) -> Result<Option<Seq<u8>>, InvalidContext> {
    match context_value_of(r) {
        Err(e) => Err(e),
        Ok(None) => Ok(None),
        Ok(Some(v)) => match b64_decode_either(encode_utf8(v)) {
            None => Err(InvalidContext),
            Some(p) => if p.len() == 0 || p.len() > MAX_DECODED_CONTEXT_BYTES {
                Err(InvalidContext)
            } else {
                Ok(Some(p))
            },
        },
    }
}

fn find_header_end(request: &[u8]) -> (r: Option<usize>)
    ensures
        match r {
            Some(e) => find_blank_line(request@, 0) == Some(e - 4) && 4 <= e <= request@.len(),
            None => find_blank_line(request@, 0) is None,
        },
{
    let mut i: usize = 0;
    while i <= request.len() && request.len() - i >= 4
        invariant
            i <= request@.len(),
            find_blank_line(request@, 0) == find_blank_line(request@, i as int),
        decreases request@.len() - i,
    {
        if request[i] == 13 && request[i + 1] == 10 && request[i + 2] == 13 && request[i + 3] == 10 {
            return Some(i + 4);
        }
        i = i + 1;
    }
    None
}

fn next_line_end(h: &[u8], start: usize) -> (e: usize)
    requires
        start <= h@.len(),
    ensures
        e == line_end(h@, start as int),
        start <= e <= h@.len(),
        e < h@.len() ==> e + 2 <= h@.len() && crlf_at(h@, e as int),
{
    let mut i: usize = start;
    while h.len() - i >= 2
        invariant
            start <= i <= h@.len(),
            find_crlf(h@, start as int) == find_crlf(h@, i as int),
        decreases h@.len() - i,
    {
        if h[i] == 13 && h[i + 1] == 10 {
            return i;
        }
        i = i + 1;
    }
    h.len()
}

fn next_colon(h: &[u8], start: usize, end: usize) -> (c: Option<usize>)
    requires
        start <= end <= h@.len(),
    ensures
        match c {
            Some(k) => find_colon(h@, start as int, end as int) == Some(k as int) && start <= k < end
                && h@[k as int] == 58,
            None => find_colon(h@, start as int, end as int) is None,
        },
{
    let mut i: usize = start;
    while i < end
        invariant
            start <= i <= end <= h@.len(),
            find_colon(h@, start as int, end as int) == find_colon(h@, i as int, end as int),
        decreases end - i,
    {
        if h[i] == 58 {
            return Some(i);
        }
        i = i + 1;
    }
    None
}

fn lower_byte(b: u8) -> (r: u8)
    ensures
        r == ascii_lower(b),
{
    if 65 <= b && b <= 90 { b + 32 } else { b }
}

fn is_context_name(h: &[u8], start: usize, end: usize) -> (r: bool)
    requires
        start <= end <= h@.len(),
    ensures
        r == eq_ignore_ascii_case(h@.subrange(start as int, end as int), context_header_name()),
{
    let expected: [u8; 17] = [120, 45, 111, 98, 115, 99, 117, 114, 97, 45, 99, 111, 110, 116, 101, 120, 116];
    assert(expected@ =~= context_header_name());
    if end - start != 17 {
        return false;
    }
    let mut i: usize = 0;
    while i < 17
        invariant
            end - start == 17,
            start <= end <= h@.len(),
            expected@ == context_header_name(),
            i <= 17,
            forall|j: int| 0 <= j < i ==> ascii_lower(h@[start + j]) == ascii_lower(context_header_name()[j]),
        decreases 17 - i,
    {
        if lower_byte(h[start + i]) != lower_byte(expected[i]) {
            return false;
        }
        i = i + 1;
    }
    true
}

/// The text of a header value: the bytes after the `:` at `colon` up to the
/// line break at `end`, as a string slice of the (valid UTF-8) header.
fn value_slice<'a>(header: &'a str, colon: usize, end: usize) -> (v: &'a str)
    requires
        colon < end <= header.spec_bytes().len(),
        header.spec_bytes()[colon as int] == 58,
        end == header.spec_bytes().len() || header.spec_bytes()[end as int] == 13,
    ensures
        v@ == decode_utf8(header.spec_bytes().subrange(colon + 1, end as int)),
        v.spec_bytes() == header.spec_bytes().subrange(colon + 1, end as int),
{
    let ghost hb = header.spec_bytes();
    proof {
        encode_utf8_valid_utf8(header@);
        is_char_boundary_iff_is_leading_byte(hb, colon as int);
    }
    let (_, right) = header.split_at(colon);
    let ghost rb = right.spec_bytes();
    assert(rb =~= hb.subrange(colon as int, hb.len() as int));
    proof {
        encode_utf8_valid_utf8(right@);
        if end == hb.len() {
            is_char_boundary_start_end_of_seq(rb);
        } else {
            is_char_boundary_iff_is_leading_byte(rb, end - colon);
        }
    }
    let (mid, _) = right.split_at(end - colon);
    let ghost mb = mid.spec_bytes();
    assert(mb =~= hb.subrange(colon as int, end as int));
    proof {
        encode_utf8_valid_utf8(mid@);
        reveal_with_fuel(is_char_boundary, 2);
        assert(is_char_boundary(mb, 1));
    }
    let (_, v) = mid.split_at(1);
    assert(v.spec_bytes() =~= hb.subrange(colon + 1, end as int));
    proof {
        encode_utf8_decode_utf8(v@);
    }
    v
}

/// The characters of an optional string slice.
pub open spec fn str_opt_view(o: Option<&str>) -> Option<Seq<char>> {
    match o {
        Some(s) => Some(s@),
        None => None,
    }
}

/// Finds the `x-obscura-context` header in the raw bytes of a WebSocket
/// upgrade request and decodes its value, without keeping or formatting
/// the raw value in any error.
///
/// `Ok(None)`: the request carries no such header and the connection keeps
/// the default identity. `Ok(Some(document))`: the decoded JSON document,
/// 1 to 4096 bytes. `Err`: the header block is incomplete, longer than
/// 8192 bytes, not UTF-8, not a `GET` request or holds a line without `:`,
/// or the context header occurs twice, is empty or longer than 4096 bytes,
/// or is not base64url.
pub fn upgrade_context_payload(request: &[u8]) -> (r: Result<Option<Vec<u8>>, InvalidContext>)
    ensures
        match r {
            Ok(Some(p)) => context_payload_of(request@) == Ok::<Option<Seq<u8>>, InvalidContext>(
                Some(p@),
            ),
            Ok(None) => context_payload_of(request@) == Ok::<Option<Seq<u8>>, InvalidContext>(
                None,
            ),
            Err(_) => context_payload_of(request@) is Err,
        },
{
    let header_end = match find_header_end(request) {
        Some(e) => e,
        None => return Err(InvalidContext),
    };
    if header_end > 2 * MAX_HEADER_VALUE_BYTES {
        return Err(InvalidContext);
    }
    let header_bytes = slice_subrange(request, 0, header_end);
    let header = match str_from_utf8(header_bytes) {
        Some(s) => s,
        None => return Err(InvalidContext),
    };
    let hb = header.as_bytes();
    let ghost h = hb@;
    assert(h == request@.subrange(0, header_end as int));
    let first_end = next_line_end(hb, 0);
    if first_end < 4 || !(hb[0] == 71 && hb[1] == 69 && hb[2] == 84 && hb[3] == 32) {
        proof {
            if first_end >= 4 && h.subrange(0, 4) == get_prefix() {
                assert(h.subrange(0, 4)[0] == 71);
                assert(h.subrange(0, 4)[1] == 69);
                assert(h.subrange(0, 4)[2] == 84);
                assert(h.subrange(0, 4)[3] == 32);
            }
        }
        return Err(InvalidContext);
    }
    assert(h.subrange(0, 4) =~= get_prefix());
    if first_end == hb.len() {
        return Ok(None);
    }
    let ghost s0 = first_end + 2;
    assert(context_value_of(request@) == scan_header_lines(h, s0, None));
    let mut start: usize = first_end + 2;
    let mut found: Option<&str> = None;
    loop
        invariant_except_break
            scan_header_lines(h, start as int, str_opt_view(found)) == scan_header_lines(h, s0, None),
        invariant
            hb@ == h,
            context_value_of(request@) == scan_header_lines(h, s0, None),
            h == header.spec_bytes(),
            start <= h.len(),
        ensures
            scan_header_lines(h, s0, None) == Ok::<Option<Seq<char>>, InvalidContext>(
                str_opt_view(found),
            ),
        decreases h.len() - start,
    {
        let ghost old_found = str_opt_view(found);
        let ghost old_start = start as int;
        let end = next_line_end(hb, start);
        if end == start {
            break;
        }
        let c = match next_colon(hb, start, end) {
            Some(c) => c,
            None => return Err(InvalidContext),
        };
        let is_context = is_context_name(hb, start, c);
        if is_context {
            if found.is_some() {
                return Err(InvalidContext);
            }
            proof {
                if end < h.len() {
                    assert(crlf_at(h, end as int));
                }
            }
            let raw = value_slice(header, c, end);
            let v = trim_whitespace(raw);
            proof {
                lemma_trim_encoded_len(raw@);
            }
            if v.is_empty() || v.len() > MAX_HEADER_VALUE_BYTES {
                return Err(InvalidContext);
            }
            assert(acceptable_value(header_value(h, c as int, end as int)));
            found = Some(v);
        }
        proof {
            let is_ctx = eq_ignore_ascii_case(h.subrange(old_start, c as int), context_header_name());
            assert(is_ctx == is_context);
            assert(find_colon(h, old_start, end as int) == Some(c as int));
            let next = if is_ctx { Some(header_value(h, c as int, end as int)) } else { old_found };
            assert(line_end(h, old_start) == end);
            assert(0 <= old_start <= h.len());
            assert(end > old_start);
            assert(!(is_ctx && old_found is Some));
            assert(is_ctx ==> acceptable_value(header_value(h, c as int, end as int)));
            assert(next == str_opt_view(found));
            if end + 2 <= h.len() {
                assert(scan_header_lines(h, old_start, old_found) == scan_header_lines(h, end + 2, next));
            } else {
                assert(scan_header_lines(h, old_start, old_found) == Ok::<Option<Seq<char>>, InvalidContext>(next));
            }
        }
        if end < hb.len() {
            start = end + 2;
        } else {
            break;
        }
    }
    match found {
        None => Ok(None),
        Some(v) => {
            let decoded = match decode_url_safe_either(v) {
                Some(d) => d,
                None => return Err(InvalidContext),
            };
            if decoded.len() == 0 || decoded.len() > MAX_DECODED_CONTEXT_BYTES {
                return Err(InvalidContext);
            }
            Ok(Some(decoded))
        },
    }
}

/// The fields of the JSON context document (`version`, `fingerprintSeed`,
/// `browserProfile`, `operatingSystem`, and the optional `proxyUrl`,
/// `timezone` and `geolocation`). The document itself is read by a JSON
/// parser that refuses unknown fields; the coordinates are floating point,
/// so `geolocation` holds only the verdict on them: `Some(true)` when both
/// are finite, the latitude within -90..=90 and the longitude within
/// -180..=180.
pub struct WireContext {
    pub version: u32,
    pub fingerprint_seed: String,
    pub browser_profile: String,
    pub operating_system: String,
    pub proxy_url: Option<String>,
    pub timezone: Option<String>,
    pub geolocation: Option<bool>,
}

/// The identity that a connection runs with (its location, when one was
/// given, travels beside it).
pub struct BrowserIdentity {
    pub fingerprint_seed: String,
    pub browser_profile: String,
    pub operating_system: String,
    pub proxy_url: Option<String>,
    pub timezone: Option<String>,
}

/// The characters of an optional string.
pub open spec fn string_opt_view(o: Option<String>) -> Option<Seq<char>> {
    match o {
        Some(s) => Some(s@),
        None => None,
    }
}

/// The contents of a [`BrowserIdentity`].
pub struct IdentityView {
    pub fingerprint_seed: Seq<char>,
    pub browser_profile: Seq<char>,
    pub operating_system: Seq<char>,
    pub proxy_url: Option<Seq<char>>,
    pub timezone: Option<Seq<char>>,
}

impl View for BrowserIdentity {
    type V = IdentityView;

    open spec fn view(&self) -> IdentityView {
        IdentityView {
            fingerprint_seed: self.fingerprint_seed@,
            browser_profile: self.browser_profile@,
            operating_system: self.operating_system@,
            proxy_url: string_opt_view(self.proxy_url),
            timezone: string_opt_view(self.timezone),
        }
    }
}

/// Printable ASCII: every character is in `0x20..0x7f` (ASCII without the
/// control characters).
pub open spec fn printable_ascii(s: Seq<char>) -> bool {
    forall|i: int| 0 <= i < s.len() ==> 32 <= #[trigger] (s[i] as u32) < 127
}

/// Non-empty printable ASCII of at most `max` bytes.
pub open spec fn bounded_printable(s: Seq<char>, max: nat) -> bool {
    s.len() > 0 && encode_utf8(s).len() <= max && printable_ascii(s)
}

/// The scheme that the `url` crate reads from `s`, when it parses `s` as an
/// absolute URL.
pub uninterp spec fn url_scheme_of(s: Seq<char>) -> Option<Seq<char>>;

/// A proxy URL is accepted when it is printable ASCII of at most 2048 bytes
/// and parses as an `http` or `https` URL.
pub open spec fn proxy_accepted(p: Seq<char>) -> bool {
    &&& bounded_printable(p, MAX_PROXY_BYTES as nat)
    &&& url_scheme_of(p) matches Some(scheme)
    &&& (scheme == "http"@ || scheme == "https"@)
}

/// The conditions under which a context document describes an identity
/// this build can honour: version 1 of the format, the `chrome_145`
/// profile on `windows`, a printable seed of at most 256 bytes, an
/// acceptable proxy, a timezone that is the process's own `TZ`, and
/// coordinates in range.
pub open spec fn wire_accepted(w: WireContext, stealth: bool, process_tz: Option<Seq<char>>) -> bool {
    &&& w.version == 1
    &&& w.browser_profile@ == "chrome_145"@
    &&& w.operating_system@ == "windows"@
    &&& bounded_printable(w.fingerprint_seed@, MAX_SEED_BYTES as nat)
    &&& (w.proxy_url matches Some(p) ==> proxy_accepted(p@))
    &&& (w.timezone matches Some(t) ==> bounded_printable(t@, MAX_TIMEZONE_BYTES as nat)
        && process_tz == Some(t@))
    &&& (w.geolocation matches Some(ok) ==> ok)
}

/// The identity that an accepted document describes.
pub open spec fn identity_of(w: WireContext) -> IdentityView {
    IdentityView {
        fingerprint_seed: w.fingerprint_seed@,
        browser_profile: w.browser_profile@,
        operating_system: w.operating_system@,
        proxy_url: string_opt_view(w.proxy_url),
        timezone: string_opt_view(w.timezone),
    }
}

/// Calls `url::Url::parse` and reads the parsed URL's `scheme()`. Claimed:
/// the outcome is a function of the input text alone, named
/// [`url_scheme_of`]. What the parser accepts is left unsaid.
#[verifier::external_body]
fn parse_url_scheme(input: &str) -> (r: Option<String>)
    ensures
        string_opt_view(r) == url_scheme_of(input@),
{
    match url::Url::parse(input) {
        Ok(url) => Some(url.scheme().to_string()),
        Err(_) => None,
    }
}

/// Whether `s` is non-empty printable ASCII of at most `max` bytes.
fn is_bounded_printable(s: &str, max: usize) -> (r: bool)
    ensures
        r == bounded_printable(s@, max as nat),
{
    if s.is_empty() || s.len() > max {
        return false;
    }
    if !s.is_ascii() {
        proof {
            if printable_ascii(s@) {
                assert forall|i: int| 0 <= i < s@.len() implies '\0' <= #[trigger] s@[i] <= '\u{7f}' by {
                    let c = s@[i];
                    lemma_char_ascii(c);
                    assert(32 <= (c as u32) < 127);
                }
            }
        }
        return false;
    }
    let b = s.as_bytes();
    proof {
        is_ascii_chars_encode_utf8(s@);
    }
    let mut i: usize = 0;
    while i < b.len()
        invariant
            b@ == encode_utf8(s@),
            b@.len() == s@.len(),
            forall|j: int| 0 <= j < s@.len() ==> s@[j] as u8 == b@[j],
            is_ascii_chars(s@),
            i <= b@.len(),
            forall|j: int| 0 <= j < i ==> 32 <= #[trigger] (s@[j] as u32) < 127,
        decreases b@.len() - i,
    {
        if b[i] < 32 || b[i] == 127 {
            proof {
                let c = s@[i as int];
                assert(c as u8 == b@[i as int]);
                assert('\0' <= c <= '\u{7f}');
                lemma_char_ascii(c);
                assert(!(32 <= (c as u32) < 127));
            }
            return false;
        }
        proof {
            let c = s@[i as int];
            assert('\0' <= c <= '\u{7f}');
            assert(c as u8 == b@[i as int]);
            lemma_char_ascii(c);
        }
        i = i + 1;
    }
    true
}

/// Whether `proxy` is an acceptable proxy URL (see [`proxy_accepted`]).
pub fn valid_proxy(proxy: &str) -> (r: bool)
    ensures
        r == proxy_accepted(proxy@),
{
    if !is_bounded_printable(proxy, MAX_PROXY_BYTES) {
        return false;
    }
    match parse_url_scheme(proxy) {
        None => false,
        Some(scheme) => str_eq(scheme.as_str(), "http") || str_eq(scheme.as_str(), "https"),
    }
}

/// Checks a parsed context document and turns it into the connection's
/// identity. `process_tz` is the process's `TZ` environment variable, when
/// it is set and Unicode: a requested timezone must equal it, since the
/// process cannot run pages in another zone.
///
/// Returns `Ok(Some(identity))` exactly when [`wire_accepted`] holds, with
/// the identity made of the document's fields; `Err` otherwise.
pub fn validate_wire_context(wire: WireContext, stealth: bool, process_tz: Option<&str>) -> (r: Result<
    Option<BrowserIdentity>,
    InvalidContext,
>)
    ensures
        r is Ok <==> wire_accepted(wire, stealth, str_opt_view(process_tz)),
        r matches Ok(o) ==> o matches Some(id) && id@ == identity_of(wire),
{
    if wire.version != 1 || !str_eq(wire.browser_profile.as_str(), "chrome_145") || !str_eq(
        wire.operating_system.as_str(),
        "windows",
    ) || !is_bounded_printable(wire.fingerprint_seed.as_str(), MAX_SEED_BYTES) {
        return Err(InvalidContext);
    }
    // The only stealth transport is Chrome 145 on Windows; the check stays
    // explicit so that a future profile cannot claim a TLS identity that
    // does not exist.

    if stealth && (!str_eq(wire.browser_profile.as_str(), "chrome_145") || !str_eq(
        wire.operating_system.as_str(),
        "windows",
    )) {
        return Err(InvalidContext);
    }
    if let Some(proxy) = &wire.proxy_url {
        if !valid_proxy(proxy.as_str()) {
            return Err(InvalidContext);
        }
    }
    if let Some(timezone) = &wire.timezone {
        let same_zone = match process_tz {
            Some(tz) => str_eq(tz, timezone.as_str()),
            None => false,
        };
        if !is_bounded_printable(timezone.as_str(), MAX_TIMEZONE_BYTES) || !same_zone {
            return Err(InvalidContext);
        }
    }
    match wire.geolocation {
        Some(false) => return Err(InvalidContext),
        _ => {},
    }
    Ok(
        Some(
            BrowserIdentity {
                fingerprint_seed: wire.fingerprint_seed,
                browser_profile: wire.browser_profile,
                operating_system: wire.operating_system,
                proxy_url: wire.proxy_url,
                timezone: wire.timezone,
            },
        ),
    )
}

/// A context document that does not name format version 1 and the
/// `chrome_145` profile on `windows` is refused: there is no fallback to
/// another identity.
pub proof fn law_unsupported_identity_refused(w: WireContext, stealth: bool, process_tz: Option<Seq<char>>)
    requires
        w.version != 1 || w.browser_profile@ != "chrome_145"@ || w.operating_system@ != "windows"@,
    ensures
        !wire_accepted(w, stealth, process_tz),
{
}

/// Two accepted documents with different fingerprint seeds give different
/// identities, so two accounts that share a process are not the same
/// browser; and a document always gives the same identity.
pub proof fn law_identities_isolated(
    w1: WireContext,
    w2: WireContext,
    stealth: bool,
    process_tz: Option<Seq<char>>,
)
    requires
        wire_accepted(w1, stealth, process_tz),
        wire_accepted(w2, stealth, process_tz),
    ensures
        w1.fingerprint_seed@ != w2.fingerprint_seed@ ==> identity_of(w1) != identity_of(w2),
        identity_of(w1).fingerprint_seed == w1.fingerprint_seed@,
{
}

/// Once the context header has been read, the rest of the header block
/// either refuses the request or keeps that header: the outcome is never
/// "no context header", so a refused identity is never served under the
/// default one.
pub proof fn law_present_header_never_default(h: Seq<u8>, start: int, value: Seq<char>)
    ensures
        scan_header_lines(h, start, Some(value)) != Ok::<Option<Seq<char>>, InvalidContext>(None),
    decreases h.len() - start,
{
    if 0 <= start <= h.len() {
        let end = line_end(h, start);
        if end > start {
            if let Some(c) = find_colon(h, start, end) {
                let is_context = eq_ignore_ascii_case(h.subrange(start, c), context_header_name());
                if !is_context && end + 2 <= h.len() {
                    law_present_header_never_default(h, end + 2, value);
                }
            }
        }
    }
}

/// The decoded document depends on the request only through the context
/// header's value: two upgrade requests (a connection and a later
/// reconnect) that carry the same value get the same document, and so the
/// same identity, whatever their other headers.
pub proof fn law_same_header_same_document(r1: Seq<u8>, r2: Seq<u8>)
    requires
        context_value_of(r1) == context_value_of(r2),
    ensures
        context_payload_of(r1) == context_payload_of(r2),
{
}

/// Stealth mode refuses nothing more: the only profile there is, Chrome
/// 145 on Windows, is the one stealth supports, so a document is accepted
/// with stealth exactly when it is accepted without it (a valid proxy, for
/// one, is kept either way).
pub proof fn law_stealth_accepts_the_same(w: WireContext, process_tz: Option<Seq<char>>)
    ensures
        wire_accepted(w, true, process_tz) == wire_accepted(w, false, process_tz),
{
}

/// What acceptance asks of each field, said field by field: version 1; the
/// `chrome_145` profile on `windows`; a seed of 1 to 256 printable ASCII
/// bytes; a proxy, when given, of 1 to 2048 printable ASCII bytes with an
/// `http` or `https` scheme; a timezone, when given, equal to the process
/// timezone and of 1 to 128 printable ASCII bytes; coordinates, when given,
/// in range. The identity keeps every field of the document as given.
pub proof fn law_acceptance_by_field(w: WireContext, stealth: bool, process_tz: Option<Seq<char>>)
    ensures
        wire_accepted(w, stealth, process_tz) <==> {
            &&& w.version == 1
            &&& w.browser_profile@ == "chrome_145"@
            &&& w.operating_system@ == "windows"@
            &&& 1 <= w.fingerprint_seed@.len() && encode_utf8(w.fingerprint_seed@).len() <= 256
            &&& (forall|i: int|
                0 <= i < w.fingerprint_seed@.len() ==> 32 <= #[trigger] (w.fingerprint_seed@[i] as u32) < 127)
            &&& (w.proxy_url matches Some(p) ==> {
                &&& 1 <= p@.len() && encode_utf8(p@).len() <= 2048
                &&& (forall|i: int| 0 <= i < p@.len() ==> 32 <= #[trigger] (p@[i] as u32) < 127)
                &&& (url_scheme_of(p@) == Some("http"@) || url_scheme_of(p@) == Some("https"@))
            })
            &&& (w.timezone matches Some(t) ==> {
                &&& process_tz == Some(t@)
                &&& 1 <= t@.len() && encode_utf8(t@).len() <= 128
                &&& (forall|i: int| 0 <= i < t@.len() ==> 32 <= #[trigger] (t@[i] as u32) < 127)
            })
            &&& w.geolocation != Some(false)
        },
        identity_of(w).fingerprint_seed == w.fingerprint_seed@,
        identity_of(w).browser_profile == w.browser_profile@,
        identity_of(w).operating_system == w.operating_system@,
        identity_of(w).proxy_url == (match w.proxy_url {
            Some(p) => Some(p@),
            None => None,
        }),
        identity_of(w).timezone == (match w.timezone {
            Some(t) => Some(t@),
            None => None,
        }),
{
}

} // verus!
