//! The request half of a `Network.requestWillBeSent` / `Fetch.requestPaused`
//! event, built from one completed exchange.
//!
//! Playwright reads the request body from `postDataEntries` (base64 of the
//! exact bytes); older clients read `postData` (text). Both are sent, and
//! the entries carry the raw bytes when they are known, so a binary upload
//! survives the trip intact.
use std::collections::HashMap;
use vstd::prelude::*;
use vstd::utf8::*;
use crate::encoding::{b64_decode, b64_encode, encode_standard, lemma_b64_decode_encode};

verus! {

/// One network exchange as the browser records it. Its wall-clock
/// timestamp is kept beside it by the caller.
pub struct NetworkEvent {
    pub request_id: String,
    pub url: String,
    pub method: String,
    pub headers: HashMap<String, String>,
    pub post_data: Option<String>,
    pub post_data_bytes: Option<Vec<u8>>,
    pub resource_type: String,
    pub status: u16,
    pub response_headers: HashMap<String, String>,
    pub body_size: usize,
}

/// One element of `postDataEntries`: the body as standard base64.
pub struct PostDataEntry {
    pub bytes: String,
}

/// The request object of a DevTools network event.
pub struct RequestPayload {
    pub url: String,
    pub method: String,
    pub headers: HashMap<String, String>,
    pub has_post_data: bool,
    pub post_data: Option<String>,
    pub post_data_entries: Option<Vec<PostDataEntry>>,
}

/// The characters of an optional string.
pub open spec fn opt_chars(o: Option<String>) -> Option<Seq<char>> {
    match o {
        Some(s) => Some(s@),
        None => None,
    }
}

/// The bytes that the entries describe: the raw body when it was kept,
/// else the UTF-8 bytes of the text body.
pub open spec fn post_body_bytes(event: NetworkEvent) -> Option<Seq<u8>> {
    match event.post_data_bytes {
        Some(b) => Some(b@),
        None => match event.post_data {
            Some(t) => Some(encode_utf8(t@)),
            None => None,
        },
    }
}

/// Whether a body of `len` bytes can be base64-encoded without the encoded
/// length overflowing `usize`.
pub open spec fn encodable_len(len: nat) -> bool {
    (len / 3) * 4 + 4 <= usize::MAX
}

/// Builds the request object for `event`: URL, method and headers as
/// recorded; `hasPostData` when either body form is present; `postData`
/// when the text form is present; and one `postDataEntries` element holding
/// the base64 of the raw bytes, or of the text's UTF-8 bytes when only the
/// text is known.
pub fn request_payload(event: &NetworkEvent) -> (r: RequestPayload)
    requires
        post_body_bytes(*event) matches Some(b) ==> encodable_len(b.len()),
    ensures
        r.url@ == event.url@,
        r.method@ == event.method@,
        r.headers@ == event.headers@,
        r.has_post_data == (event.post_data is Some || event.post_data_bytes is Some),
        opt_chars(r.post_data) == opt_chars(event.post_data),
        r.post_data_entries is Some <==> post_body_bytes(*event) is Some,
        r.post_data_entries matches Some(entries) ==> {
            &&& entries.len() == 1
            &&& encode_utf8(entries@[0].bytes@) == b64_encode(post_body_bytes(*event)->0, false, true)
            &&& b64_decode(encode_utf8(entries@[0].bytes@), false, true) == post_body_bytes(*event)
        },
{
    let post_data = match &event.post_data {
        Some(body) => Some(body.clone()),
        None => None,
    };
    let entries = match &event.post_data_bytes {
        Some(bytes) => {
            let encoded = encode_standard(bytes.as_slice());
            proof {
                lemma_b64_decode_encode(bytes@, false, true);
            }
            Some(vec![PostDataEntry { bytes: encoded }])
        },
        None => match &event.post_data {
            Some(text) => {
                let encoded = encode_standard(text.as_str().as_bytes());
                proof {
                    lemma_b64_decode_encode(encode_utf8(text@), false, true);
                }
                Some(vec![PostDataEntry { bytes: encoded }])
            },
            None => None,
        },
    };
    RequestPayload {
        url: event.url.clone(),
        method: event.method.clone(),
        headers: event.headers.clone(),
        has_post_data: event.post_data.is_some() || event.post_data_bytes.is_some(),
        post_data,
        post_data_entries: entries,
    }
}

/// The entries describe the raw request bytes whenever they were kept,
/// whatever the text form says; the text's UTF-8 bytes only when no raw
/// bytes were kept; and nothing when there is no body.
pub proof fn law_post_entries_prefer_raw_bytes(event: NetworkEvent)
    ensures
        event.post_data_bytes matches Some(b) ==> post_body_bytes(event) == Some(b@),
        event.post_data_bytes is None ==> (event.post_data matches Some(t) ==> post_body_bytes(event) == Some(
            encode_utf8(t@),
        )),
        (event.post_data_bytes is None && event.post_data is None) ==> post_body_bytes(event) is None,
{
}

} // verus!
