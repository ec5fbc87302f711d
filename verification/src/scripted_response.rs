//! Recording of fetch/XHR traffic that page scripts make.
//!
//! Each response is recorded twice: its body goes into a bounded buffer
//! keyed by request ID (so that `Network.getResponseBody` and
//! `Fetch.getResponseBody` can resolve it), and an event describing the
//! exchange goes into a bounded log that the DevTools layer drains. Both
//! transports go through the same recorder, so every event's request ID
//! resolves to its body while the body is buffered.
use std::collections::HashMap;
use std::collections::VecDeque;
use vstd::prelude::*;
use vstd::slice::slice_to_vec;
use vstd::utf8::*;
use crate::encoding::{
    b64_decode, b64_encode, encode_standard, lemma_b64_decode_encode, lemma_b64_encode_utf8,
    str_from_utf8, string_from_utf8_lossy, utf8_lossy,
};
use crate::text::{
    all_digits, decimal, digits_value, lemma_decimal_injective, law_decimal_spells_number, push_decimal,
    str_eq,
};

verus! {

/// A cached response body: text when the body was UTF-8, else base64.
#[derive(Clone, Debug)]
pub struct StoredNetworkResponseBody {
    pub body: String,
    pub base64_encoded: bool,
}

/// The contents of a [`StoredNetworkResponseBody`].
pub struct StoredBodyView {
    pub body: Seq<char>,
    pub base64_encoded: bool,
}

impl View for StoredNetworkResponseBody {
    type V = StoredBodyView;

    open spec fn view(&self) -> StoredBodyView {
        StoredBodyView { body: self.body@, base64_encoded: self.base64_encoded }
    }
}

/// A buffered body with the request ID that it belongs to.
pub struct BodyEntry {
    pub request_id: String,
    pub body: StoredNetworkResponseBody,
}

/// Whether some entry has request ID `k`.
pub open spec fn has_entry(entries: Seq<BodyEntry>, k: Seq<char>) -> bool {
    exists|i: int| 0 <= i < entries.len() && (#[trigger] entries[i]).request_id@ == k
}

/// No two entries share a request ID.
pub open spec fn ids_unique(entries: Seq<BodyEntry>) -> bool {
    forall|i: int, j: int|
        0 <= i < entries.len() && 0 <= j < entries.len() && i != j ==> (#[trigger] entries[i]).request_id@
            != (#[trigger] entries[j]).request_id@
}

/// The entries as a map from request ID to body.
pub open spec fn body_map(entries: Seq<BodyEntry>) -> Map<Seq<char>, StoredBodyView> {
    Map::new(
        |k: Seq<char>| has_entry(entries, k),
        |k: Seq<char>|
            entries[choose|i: int| 0 <= i < entries.len() && (#[trigger] entries[i]).request_id@ == k].body@,
    )
}

proof fn lemma_map_at(entries: Seq<BodyEntry>, i: int)
    requires
        ids_unique(entries),
        0 <= i < entries.len(),
    ensures
        body_map(entries).contains_key(entries[i].request_id@),
        body_map(entries)[entries[i].request_id@] == entries[i].body@,
{
    let k = entries[i].request_id@;
    assert(has_entry(entries, k));
    let j = choose|j: int| 0 <= j < entries.len() && (#[trigger] entries[j]).request_id@ == k;
    assert(j == i);
}

proof fn lemma_map_update(entries: Seq<BodyEntry>, i: int, e: BodyEntry)
    requires
        ids_unique(entries),
        0 <= i < entries.len(),
        entries[i].request_id@ == e.request_id@,
    ensures
        ids_unique(entries.update(i, e)),
        body_map(entries.update(i, e)) == body_map(entries).insert(e.request_id@, e.body@),
{
    let n = entries.update(i, e);
    assert(ids_unique(n)) by {
        assert forall|a: int, b: int|
            0 <= a < n.len() && 0 <= b < n.len() && a != b implies (#[trigger] n[a]).request_id@
            != (#[trigger] n[b]).request_id@ by {
            assert(entries[a].request_id@ != entries[b].request_id@);
        }
    }
    let m = body_map(entries).insert(e.request_id@, e.body@);
    assert forall|k: Seq<char>| #[trigger] body_map(n).contains_key(k) <==> m.contains_key(k) by {
        if has_entry(entries, k) {
            let j = choose|j: int| 0 <= j < entries.len() && (#[trigger] entries[j]).request_id@ == k;
            assert(n[j].request_id@ == k);
        }
        if has_entry(n, k) {
            let j = choose|j: int| 0 <= j < n.len() && (#[trigger] n[j]).request_id@ == k;
            assert(entries[j].request_id@ == k);
        }
    }
    assert forall|k: Seq<char>| #[trigger] body_map(n).contains_key(k) implies body_map(n)[k] == m[k] by {
        let j = choose|j: int| 0 <= j < n.len() && (#[trigger] n[j]).request_id@ == k;
        lemma_map_at(n, j);
        if j != i {
            lemma_map_at(entries, j);
        }
    }
    assert(body_map(n) =~= m);
}

proof fn lemma_map_push(entries: Seq<BodyEntry>, e: BodyEntry)
    requires
        ids_unique(entries),
        !has_entry(entries, e.request_id@),
    ensures
        ids_unique(entries.push(e)),
        body_map(entries.push(e)) == body_map(entries).insert(e.request_id@, e.body@),
{
    let n = entries.push(e);
    let last = entries.len() as int;
    assert(ids_unique(n)) by {
        assert forall|a: int, b: int|
            0 <= a < n.len() && 0 <= b < n.len() && a != b implies (#[trigger] n[a]).request_id@
            != (#[trigger] n[b]).request_id@ by {
            if a == last {
                assert(entries[b] == n[b]);
            } else if b == last {
                assert(entries[a] == n[a]);
            } else {
                assert(entries[a].request_id@ != entries[b].request_id@);
            }
        }
    }
    let m = body_map(entries).insert(e.request_id@, e.body@);
    assert forall|k: Seq<char>| #[trigger] body_map(n).contains_key(k) <==> m.contains_key(k) by {
        if has_entry(entries, k) {
            let j = choose|j: int| 0 <= j < entries.len() && (#[trigger] entries[j]).request_id@ == k;
            assert(n[j].request_id@ == k);
        }
        if k == e.request_id@ {
            assert(n[last].request_id@ == k);
        }
        if has_entry(n, k) && k != e.request_id@ {
            let j = choose|j: int| 0 <= j < n.len() && (#[trigger] n[j]).request_id@ == k;
            assert(entries[j].request_id@ == k);
        }
    }
    assert forall|k: Seq<char>| #[trigger] body_map(n).contains_key(k) implies body_map(n)[k] == m[k] by {
        let j = choose|j: int| 0 <= j < n.len() && (#[trigger] n[j]).request_id@ == k;
        lemma_map_at(n, j);
        if j != last {
            lemma_map_at(entries, j);
        }
    }
    assert(body_map(n) =~= m);
}

proof fn lemma_map_remove(entries: Seq<BodyEntry>, i: int)
    requires
        ids_unique(entries),
        0 <= i < entries.len(),
    ensures
        ids_unique(entries.remove(i)),
        body_map(entries.remove(i)) == body_map(entries).remove(entries[i].request_id@),
{
    let n = entries.remove(i);
    let gone = entries[i].request_id@;
    assert forall|a: int| 0 <= a < n.len() implies #[trigger] n[a] == entries[if a < i { a } else { a + 1 }] by {}
    assert(ids_unique(n)) by {
        assert forall|a: int, b: int|
            0 <= a < n.len() && 0 <= b < n.len() && a != b implies (#[trigger] n[a]).request_id@
            != (#[trigger] n[b]).request_id@ by {
            let a2 = if a < i { a } else { a + 1 };
            let b2 = if b < i { b } else { b + 1 };
            assert(entries[a2].request_id@ != entries[b2].request_id@);
        }
    }
    let m = body_map(entries).remove(gone);
    assert forall|k: Seq<char>| #[trigger] body_map(n).contains_key(k) <==> m.contains_key(k) by {
        if has_entry(entries, k) && k != gone {
            let j = choose|j: int| 0 <= j < entries.len() && (#[trigger] entries[j]).request_id@ == k;
            let j2 = if j < i { j } else { j - 1 };
            assert(n[j2].request_id@ == k);
        }
        if has_entry(n, k) {
            let j = choose|j: int| 0 <= j < n.len() && (#[trigger] n[j]).request_id@ == k;
            let j2 = if j < i { j } else { j + 1 };
            assert(entries[j2].request_id@ == k);
        }
    }
    assert forall|k: Seq<char>| #[trigger] body_map(n).contains_key(k) implies body_map(n)[k] == m[k] by {
        let j = choose|j: int| 0 <= j < n.len() && (#[trigger] n[j]).request_id@ == k;
        let j2 = if j < i { j } else { j + 1 };
        lemma_map_at(n, j);
        lemma_map_at(entries, j2);
    }
    assert(body_map(n) =~= m);
}

fn find_entry(entries: &Vec<BodyEntry>, id: &str) -> (r: Option<usize>)
    ensures
        match r {
            Some(i) => i < entries@.len() && entries@[i as int].request_id@ == id@,
            None => !has_entry(entries@, id@),
        },
{
    let mut i: usize = 0;
    while i < entries.len()
        invariant
            i <= entries@.len(),
            forall|j: int| 0 <= j < i ==> (#[trigger] entries@[j]).request_id@ != id@,
        decreases entries@.len() - i,
    {
        if str_eq(entries[i].request_id.as_str(), id) {
            return Some(i);
        }
        i = i + 1;
    }
    None
}

fn remove_entry(entries: &mut Vec<BodyEntry>, id: &str)
    requires
        ids_unique(old(entries)@),
    ensures
        ids_unique(final(entries)@),
        body_map(final(entries)@) == body_map(old(entries)@).remove(id@),
        forall|k: Seq<char>| has_entry(final(entries)@, k) ==> has_entry(old(entries)@, k),
{
    match find_entry(entries, id) {
        Some(i) => {
            proof {
                lemma_map_remove(entries@, i as int);
                assert forall|k: Seq<char>| has_entry(entries@.remove(i as int), k) implies has_entry(entries@, k) by {
                    let j = choose|j: int| 0 <= j < entries@.remove(i as int).len() && (#[trigger] entries@.remove(i as int)[j]).request_id@ == k;
                    let j2 = if j < i { j } else { j + 1 };
                    assert(entries@[j2].request_id@ == k);
                }
            }
            entries.remove(i);
        },
        None => {
            assert(body_map(entries@).remove(id@) =~= body_map(entries@));
        },
    }
}

fn insert_entry(entries: &mut Vec<BodyEntry>, entry: BodyEntry)
    requires
        ids_unique(old(entries)@),
    ensures
        ids_unique(final(entries)@),
        body_map(final(entries)@) == body_map(old(entries)@).insert(entry.request_id@, entry.body@),
        forall|k: Seq<char>| has_entry(final(entries)@, k) ==> has_entry(old(entries)@, k) || k == entry.request_id@,
{
    match find_entry(entries, entry.request_id.as_str()) {
        Some(i) => {
            proof {
                lemma_map_update(entries@, i as int, entry);
                let n = entries@.update(i as int, entry);
                assert forall|k: Seq<char>| has_entry(n, k) implies has_entry(entries@, k) || k == entry.request_id@ by {
                    let j = choose|j: int| 0 <= j < n.len() && (#[trigger] n[j]).request_id@ == k;
                    if j != i {
                        assert(entries@[j].request_id@ == k);
                    }
                }
            }
            entries.set(i, entry);
        },
        None => {
            proof {
                lemma_map_push(entries@, entry);
                let n = entries@.push(entry);
                assert forall|k: Seq<char>| has_entry(n, k) implies has_entry(entries@, k) || k == entry.request_id@ by {
                    let j = choose|j: int| 0 <= j < n.len() && (#[trigger] n[j]).request_id@ == k;
                    if j < entries@.len() {
                        assert(entries@[j].request_id@ == k);
                    }
                }
            }
            entries.push(entry);
        },
    }
}

/// Longest log of script network events; older events are dropped first.
pub const MAX_JS_NETWORK_EVENTS: usize = 4096;
/// Default number of buffered response bodies.
pub const DEFAULT_BODY_BUFFER_ENTRIES: usize = 128;
/// Default limit on the size of one buffered response body (2 MiB).
pub const DEFAULT_BODY_BUFFER_BYTES: usize = 2097152;

/// How many response bodies the buffer keeps, and how large one may be.
/// Either limit at zero turns the buffer off.
#[derive(Clone, Copy, Debug)]
pub struct BodyBufferLimits {
    pub max_entries: usize,
    pub max_bytes: usize,
}

impl BodyBufferLimits {
    /// The limits from the `OBSCURA_NETWORK_BODY_BUFFER_ENTRIES` and
    /// `OBSCURA_NETWORK_BODY_BUFFER_BYTES` settings, each replaced by its
    /// default (128 entries, 2 MiB) when unset or not a number.
    pub fn from_settings(entries: Option<usize>, bytes: Option<usize>) -> (r: BodyBufferLimits)
        ensures
            r.max_entries == (match entries { Some(n) => n, None => DEFAULT_BODY_BUFFER_ENTRIES }),
            r.max_bytes == (match bytes { Some(n) => n, None => DEFAULT_BODY_BUFFER_BYTES }),
    {
        BodyBufferLimits {
            max_entries: match entries {
                Some(n) => n,
                None => DEFAULT_BODY_BUFFER_ENTRIES,
            },
            max_bytes: match bytes {
                Some(n) => n,
                None => DEFAULT_BODY_BUFFER_BYTES,
            },
        }
    }
}

/// One fetch/XHR exchange made by a page script, as the DevTools layer
/// reports it. `timestamp_micros` is the wall-clock time of recording in
/// microseconds since the Unix epoch.
pub struct JsNetworkEvent {
    pub request_id: String,
    pub url: String,
    pub method: String,
    pub status: u16,
    pub request_headers: HashMap<String, String>,
    pub post_data_bytes: Option<Vec<u8>>,
    pub post_data: Option<String>,
    pub response_headers: HashMap<String, String>,
    pub body_size: usize,
    pub timestamp_micros: u64,
}

/// The contents of a [`JsNetworkEvent`].
pub struct JsNetworkEventView {
    pub request_id: Seq<char>,
    pub url: Seq<char>,
    pub method: Seq<char>,
    pub status: u16,
    pub request_headers: Map<String, String>,
    pub post_data_bytes: Option<Seq<u8>>,
    pub post_data: Option<Seq<char>>,
    pub response_headers: Map<String, String>,
    pub body_size: usize,
    pub timestamp_micros: u64,
}

impl View for JsNetworkEvent {
    type V = JsNetworkEventView;

    open spec fn view(&self) -> JsNetworkEventView {
        JsNetworkEventView {
            request_id: self.request_id@,
            url: self.url@,
            method: self.method@,
            status: self.status,
            request_headers: self.request_headers@,
            post_data_bytes: match self.post_data_bytes {
                Some(b) => Some(b@),
                None => None,
            },
            post_data: match self.post_data {
                Some(t) => Some(t@),
                None => None,
            },
            response_headers: self.response_headers@,
            body_size: self.body_size,
            timestamp_micros: self.timestamp_micros,
        }
    }
}

/// A response that a page script received, to be recorded.
pub struct ScriptedResponse<'a> {
    pub url: &'a str,
    pub method: &'a str,
    pub request_headers: &'a HashMap<String, String>,
    pub request_body: &'a [u8],
    pub status: u16,
    pub headers: &'a HashMap<String, String>,
    pub body: &'a [u8],
}

/// The part of a page's script state that records network traffic: the
/// counter behind generated request IDs, the body buffer with the order in
/// which bodies arrived, and the event log.
pub struct ScriptedNetworkState {
    network_response_body_counter: u64,
    network_response_bodies: Vec<BodyEntry>,
    network_response_body_order: VecDeque<String>,
    js_network_events: Vec<JsNetworkEvent>,
}

/// The request IDs of `order`, oldest first.
pub open spec fn order_view(order: Seq<String>) -> Seq<Seq<char>> {
    order.map_values(|s: String| s@)
}

/// The views of `events`, oldest first.
pub open spec fn events_view(events: Seq<JsNetworkEvent>) -> Seq<JsNetworkEventView> {
    events.map_values(|e: JsNetworkEvent| e@)
}

/// What the buffer keeps of a body: the text when it is UTF-8, else its
/// standard base64 encoding, flagged as such.
pub open spec fn stored_body_of(b: Seq<u8>) -> StoredBodyView {
    if valid_utf8(b) {
        StoredBodyView { body: decode_utf8(b), base64_encoded: false }
    } else {
        StoredBodyView { body: decode_utf8(b64_encode(b, false, true)), base64_encoded: true }
    }
}

/// No request ID occurs twice in the arrival order.
pub open spec fn order_unique(order: Seq<Seq<char>>) -> bool {
    forall|i: int, j: int| 0 <= i < order.len() && 0 <= j < order.len() && i != j ==> order[i] != order[j]
}

/// The arrival order without the position of `id` (a body recorded again
/// under the same ID moves to the newest place).
pub open spec fn drop_id(order: Seq<Seq<char>>, id: Seq<char>) -> Seq<Seq<char>> {
    if exists|i: int| 0 <= i < order.len() && order[i] == id {
        order.remove(choose|i: int| 0 <= i < order.len() && order[i] == id)
    } else {
        order
    }
}

proof fn lemma_drop_id(order: Seq<Seq<char>>, id: Seq<char>)
    requires
        order_unique(order),
    ensures
        order_unique(drop_id(order, id)),
        !drop_id(order, id).contains(id),
        forall|k: Seq<char>| k != id ==> (#[trigger] drop_id(order, id).contains(k) <==> order.contains(k)),
{
    let d = drop_id(order, id);
    if exists|i: int| 0 <= i < order.len() && order[i] == id {
        let i = choose|i: int| 0 <= i < order.len() && order[i] == id;
        assert forall|a: int| 0 <= a < d.len() implies #[trigger] d[a] == order[if a < i { a } else { a + 1 }] by {}
        assert forall|a: int, b: int| 0 <= a < d.len() && 0 <= b < d.len() && a != b implies d[a] != d[b] by {
            let a2 = if a < i { a } else { a + 1 };
            let b2 = if b < i { b } else { b + 1 };
            assert(d[a] == order[a2] && d[b] == order[b2]);
        }
        assert forall|a: int| 0 <= a < d.len() implies d[a] != id by {
            let a2 = if a < i { a } else { a + 1 };
            assert(d[a] == order[a2]);
        }
        assert forall|k: Seq<char>| k != id implies (#[trigger] d.contains(k) <==> order.contains(k)) by {
            if order.contains(k) {
                let j = choose|j: int| 0 <= j < order.len() && order[j] == k;
                assert(j != i);
                let j2 = if j < i { j } else { j - 1 };
                assert(d[j2] == k);
            }
            if d.contains(k) {
                let j = choose|j: int| 0 <= j < d.len() && d[j] == k;
                let j2 = if j < i { j } else { j + 1 };
                assert(order[j2] == k);
            }
        }
    }
}

/// Takes `id` out of the arrival order, where it occurs.
fn forget_order_position(order: &mut VecDeque<String>, id: &str)
    requires
        order_unique(order_view(old(order)@)),
    ensures
        order_view(final(order)@) == drop_id(order_view(old(order)@), id@),
{
    let ghost o = order_view(order@);
    let mut i: usize = 0;
    while i < order.len()
        invariant
            o == order_view(order@),
            o == order_view(old(order)@),
            order_unique(o),
            i <= order@.len(),
            forall|j: int| 0 <= j < i ==> o[j] != id@,
        decreases order@.len() - i,
    {
        if str_eq(order[i].as_str(), id) {
            proof {
                assert(o[i as int] == id@);
                assert(exists|j: int| 0 <= j < o.len() && o[j] == id@);
                let c = choose|j: int| 0 <= j < o.len() && o[j] == id@;
                assert(c == i);
                assert(drop_id(o, id@) == o.remove(i as int));
            }
            order.remove(i);
            assert(order_view(order@) =~= o.remove(i as int));
            return;
        }
        i = i + 1;
    }
    assert(!(exists|j: int| 0 <= j < o.len() && o[j] == id@));
}

/// Drops the oldest request IDs, and their bodies, until at most `max`
/// remain.
pub open spec fn evict(order: Seq<Seq<char>>, bodies: Map<Seq<char>, StoredBodyView>, max: nat) -> (
    Seq<Seq<char>>,
    Map<Seq<char>, StoredBodyView>,
)
    decreases order.len(),
{
    if order.len() <= max {
        (order, bodies)
    } else {
        evict(order.drop_first(), bodies.remove(order[0]), max)
    }
}

/// The newest `MAX_JS_NETWORK_EVENTS` events.
pub open spec fn cap_events<E>(events: Seq<E>) -> Seq<E> {
    if events.len() > MAX_JS_NETWORK_EVENTS {
        events.subrange(events.len() - MAX_JS_NETWORK_EVENTS, events.len() as int)
    } else {
        events
    }
}

/// The request ID that a recording uses: the one given (interception keeps
/// its own ID), else `fetch-N` for the next value `N` of the counter.
pub open spec fn recorded_id(given: Option<Seq<char>>, counter: u64) -> Seq<char> {
    match given {
        Some(id) => id,
        None => "fetch-"@ + decimal((counter + 1) as nat),
    }
}

/// Whether a body of `len` bytes goes into the buffer.
pub open spec fn buffers_body(len: nat, limits: BodyBufferLimits) -> bool {
    limits.max_entries > 0 && limits.max_bytes > 0 && len <= limits.max_bytes
}

/// The event recorded for `response` under request ID `id`.
pub open spec fn event_of(id: Seq<char>, response: ScriptedResponse, timestamp_micros: u64) -> JsNetworkEventView {
    JsNetworkEventView {
        request_id: id,
        url: response.url@,
        method: response.method@,
        status: response.status,
        request_headers: response.request_headers@,
        post_data_bytes: if response.request_body@.len() == 0 { None } else { Some(response.request_body@) },
        post_data: if response.request_body@.len() == 0 { None } else { Some(utf8_lossy(response.request_body@)) },
        response_headers: response.headers@,
        body_size: response.body@.len() as usize,
        timestamp_micros,
    }
}

impl ScriptedNetworkState {
    /// The counter behind generated request IDs.
    pub closed spec fn counter(&self) -> u64 {
        self.network_response_body_counter
    }

    /// The buffered bodies, by request ID.
    pub closed spec fn bodies(&self) -> Map<Seq<char>, StoredBodyView> {
        body_map(self.network_response_bodies@)
    }

    /// The request IDs of buffered bodies in arrival order.
    pub closed spec fn body_order(&self) -> Seq<Seq<char>> {
        order_view(self.network_response_body_order@)
    }

    /// The event log, oldest first.
    pub closed spec fn events(&self) -> Seq<JsNetworkEventView> {
        events_view(self.js_network_events@)
    }

    /// Every buffered body has a unique ID that is in the arrival order,
    /// where no ID occurs twice.
    pub closed spec fn wf(&self) -> bool {
        &&& ids_unique(self.network_response_bodies@)
        &&& order_unique(self.body_order())
        &&& forall|k: Seq<char>| #[trigger] has_entry(self.network_response_bodies@, k) ==> self.body_order().contains(k)
    }

    /// An empty recorder.
    pub fn new() -> (s: ScriptedNetworkState)
        ensures
            s.wf(),
            s.counter() == 0,
            s.bodies() == Map::<Seq<char>, StoredBodyView>::empty(),
            s.body_order() == Seq::<Seq<char>>::empty(),
            s.events() == Seq::<JsNetworkEventView>::empty(),
    {
        let s = ScriptedNetworkState {
            network_response_body_counter: 0,
            network_response_bodies: Vec::new(),
            network_response_body_order: VecDeque::new(),
            js_network_events: Vec::new(),
        };
        assert(s.bodies() =~= Map::<Seq<char>, StoredBodyView>::empty());
        assert(s.body_order() =~= Seq::<Seq<char>>::empty());
        assert(s.events() =~= Seq::<JsNetworkEventView>::empty());
        s
    }

    /// The buffered body for request ID `id`, if there is one.
    pub fn response_body(&self, id: &str) -> (r: Option<&StoredNetworkResponseBody>)
        requires
            self.wf(),
        ensures
            r is Some <==> self.bodies().contains_key(id@),
            r matches Some(b) ==> b@ == self.bodies()[id@],
    {
        match find_entry(&self.network_response_bodies, id) {
            Some(i) => {
                proof {
                    lemma_map_at(self.network_response_bodies@, i as int);
                }
                Some(&self.network_response_bodies[i].body)
            },
            None => None,
        }
    }

    /// Whether the counter behind generated request IDs has no next value.
    pub fn counter_exhausted(&self) -> (r: bool)
        ensures
            r == (self.counter() == u64::MAX),
    {
        self.network_response_body_counter == u64::MAX
    }

    /// The event log, oldest first.
    pub fn js_network_events(&self) -> (r: &Vec<JsNetworkEvent>)
        ensures
            events_view(r@) == self.events(),
    {
        &self.js_network_events
    }
}

proof fn lemma_evict_len(order: Seq<Seq<char>>, bodies: Map<Seq<char>, StoredBodyView>, max: nat)
    ensures
        evict(order, bodies, max).0.len() <= max || evict(order, bodies, max).0 == order,
        order.len() > max ==> evict(order, bodies, max).0.len() == max,
    decreases order.len(),
{
    if order.len() > max {
        lemma_evict_len(order.drop_first(), bodies.remove(order[0]), max);
    }
}

proof fn lemma_evict_keeps_last(
    order: Seq<Seq<char>>,
    bodies: Map<Seq<char>, StoredBodyView>,
    max: nat,
    id: Seq<char>,
    v: StoredBodyView,
)
    requires
        max >= 1,
        order.len() >= 1,
        order.last() == id,
        forall|i: int| 0 <= i < order.len() - 1 ==> order[i] != id,
        bodies.contains_key(id),
        bodies[id] == v,
    ensures
        evict(order, bodies, max).0.len() >= 1,
        evict(order, bodies, max).0.last() == id,
        evict(order, bodies, max).1.contains_key(id),
        evict(order, bodies, max).1[id] == v,
    decreases order.len(),
{
    if order.len() > max {
        assert(order[0] != id);
        let rest = order.drop_first();
        assert forall|i: int| 0 <= i < rest.len() - 1 implies rest[i] != id by {
            assert(rest[i] == order[i + 1]);
        }
        lemma_evict_keeps_last(rest, bodies.remove(order[0]), max, id, v);
    }
}

/// A response recorded with buffering on resolves, whether or not its
/// request ID was buffered before: the ID moves to the newest place in the
/// arrival order, so after the oldest bodies are dropped it is still there
/// and maps to the stored body; and its event is the newest in the log.
pub proof fn law_recorded_body_resolves(
    order: Seq<Seq<char>>,
    bodies: Map<Seq<char>, StoredBodyView>,
    events: Seq<JsNetworkEventView>,
    id: Seq<char>,
    stored: StoredBodyView,
    event: JsNetworkEventView,
    max_entries: nat,
)
    requires
        max_entries >= 1,
        order_unique(order),
    ensures
        evict(drop_id(order, id).push(id), bodies.insert(id, stored), max_entries).1.contains_key(id),
        evict(drop_id(order, id).push(id), bodies.insert(id, stored), max_entries).1[id] == stored,
        evict(drop_id(order, id).push(id), bodies.insert(id, stored), max_entries).0.last() == id,
        cap_events(events.push(event)).last() == event,
{
    lemma_drop_id(order, id);
    let d = drop_id(order, id);
    let o = d.push(id);
    assert forall|i: int| 0 <= i < o.len() - 1 implies o[i] != id by {
        assert(o[i] == d[i]);
    }
    lemma_evict_keeps_last(o, bodies.insert(id, stored), max_entries, id, stored);
}

/// Every buffered body's request ID is in the arrival order, so the oldest
/// bodies can always be found and dropped first.
pub proof fn law_buffered_ids_are_ordered(state: ScriptedNetworkState, id: Seq<char>)
    requires
        state.wf(),
        state.bodies().contains_key(id),
    ensures
        state.body_order().contains(id),
{
    assert(has_entry(state.network_response_bodies@, id));
}

/// Eviction drops the oldest request IDs: the order that remains is the
/// newest `max` IDs (all of them when there are no more), and the bodies
/// that remain are exactly those not under a dropped ID, unchanged.
pub proof fn law_evict_drops_oldest(order: Seq<Seq<char>>, bodies: Map<Seq<char>, StoredBodyView>, max: nat)
    ensures
        ({
            let (o2, m2) = evict(order, bodies, max);
            let dropped = if order.len() > max { (order.len() - max) as int } else { 0 };
            &&& o2 == order.subrange(dropped, order.len() as int)
            &&& forall|k: Seq<char>| #[trigger] m2.contains_key(k) <==> (bodies.contains_key(k)
                && !order.subrange(0, dropped).contains(k))
            &&& forall|k: Seq<char>| #[trigger] m2.contains_key(k) ==> m2[k] == bodies[k]
        }),
    decreases order.len(),
{
    if order.len() <= max {
        assert(order.subrange(0, order.len() as int) =~= order);
        assert(order.subrange(0, 0) =~= Seq::<Seq<char>>::empty());
    } else {
        let rest = order.drop_first();
        let m1 = bodies.remove(order[0]);
        law_evict_drops_oldest(rest, m1, max);
        let dropped = (order.len() - max) as int;
        let d1 = if rest.len() > max { (rest.len() - max) as int } else { 0 };
        assert(d1 == dropped - 1);
        assert(rest.subrange(d1, rest.len() as int) =~= order.subrange(dropped, order.len() as int));
        assert forall|k: Seq<char>| order.subrange(0, dropped).contains(k) <==> (k == order[0] || rest.subrange(0, d1).contains(k)) by {
            let p = order.subrange(0, dropped);
            let q = rest.subrange(0, d1);
            if p.contains(k) {
                let i = choose|i: int| 0 <= i < p.len() && p[i] == k;
                if i > 0 {
                    assert(q[i - 1] == k);
                }
            }
            if q.contains(k) {
                let i = choose|i: int| 0 <= i < q.len() && q[i] == k;
                assert(p[i + 1] == k);
            }
            if k == order[0] {
                assert(p[0] == k);
            }
        }
    }
}

/// The logged event describes the exchange that was recorded: the request's
/// URL, method and headers, the response's status and headers (not the
/// request's), the response body's length, the time given, and the request
/// body's raw bytes and its lossy text when it has any.
pub proof fn law_event_describes_exchange(id: Seq<char>, response: ScriptedResponse, timestamp_micros: u64)
    ensures
        ({
            let e = event_of(id, response, timestamp_micros);
            &&& e.request_id == id
            &&& e.url == response.url@
            &&& e.method == response.method@
            &&& e.status == response.status
            &&& e.request_headers == response.request_headers@
            &&& e.response_headers == response.headers@
            &&& (response.body@.len() <= usize::MAX ==> e.body_size == response.body@.len())
            &&& e.timestamp_micros == timestamp_micros
            &&& (response.request_body@.len() == 0 ==> e.post_data_bytes is None && e.post_data is None)
            &&& (response.request_body@.len() > 0 ==> e.post_data_bytes == Some(response.request_body@))
            &&& (response.request_body@.len() > 0 ==> e.post_data == Some(utf8_lossy(response.request_body@)))
        }),
{
}

/// The event log keeps the newest events, oldest first: at most 4096 of
/// them, and they are the last ones appended.
pub proof fn law_event_log_keeps_newest<E>(events: Seq<E>)
    ensures
        cap_events(events).len() == if events.len() > MAX_JS_NETWORK_EVENTS {
            MAX_JS_NETWORK_EVENTS as nat
        } else {
            events.len()
        },
        forall|i: int|
            0 <= i < cap_events(events).len() ==> #[trigger] cap_events(events)[i] == events[events.len()
                - cap_events(events).len() + i],
        events.len() > 0 ==> cap_events(events).last() == events.last(),
{
}

/// A stored body gives back the exact response bytes: it is base64 exactly
/// when the bytes are not UTF-8; a text body is their UTF-8 decoding, and a
/// base64 one decodes to them.
pub proof fn law_stored_body_round_trip(b: Seq<u8>)
    ensures
        stored_body_of(b).base64_encoded == !valid_utf8(b),
        !stored_body_of(b).base64_encoded ==> encode_utf8(stored_body_of(b).body) == b,
        stored_body_of(b).base64_encoded ==> b64_decode(encode_utf8(stored_body_of(b).body), false, true)
            == Some(b),
{
    if valid_utf8(b) {
        decode_utf8_encode_utf8(b);
    } else {
        lemma_b64_encode_utf8(b, false, true);
        lemma_b64_decode_encode(b, false, true);
    }
}

/// The request ID a recording uses: the one given, kept as it is; else
/// `fetch-` followed by the decimal digits of the counter's next value,
/// with no leading zero.
pub proof fn law_recorded_id_form(given: Option<Seq<char>>, counter: u64)
    ensures
        given matches Some(id) ==> recorded_id(given, counter) == id,
        given is None ==> {
            let r = recorded_id(given, counter);
            &&& r.len() > 6
            &&& r.subrange(0, 6) == seq!['f', 'e', 't', 'c', 'h', '-']
            &&& all_digits(r.subrange(6, r.len() as int))
            &&& digits_value(r.subrange(6, r.len() as int)) == counter + 1
            &&& r[6] != '0'
        },
{
    reveal_strlit("fetch-");
    if given is None {
        let n = (counter + 1) as nat;
        law_decimal_spells_number(n);
        let r = recorded_id(given, counter);
        assert(r.subrange(6, r.len() as int) =~= decimal(n));
        assert(r.subrange(0, 6) =~= seq!['f', 'e', 't', 'c', 'h', '-']);
        assert(r[6] == decimal(n)[0]);
    }
}

/// Request IDs that the recorder generates from different counter values
/// differ.
pub proof fn law_generated_ids_distinct(c1: u64, c2: u64)
    requires
        c1 != c2,
    ensures
        recorded_id(None, c1) != recorded_id(None, c2),
{
    let p = "fetch-"@;
    let a = recorded_id(None, c1);
    let b = recorded_id(None, c2);
    if a == b {
        assert(a.subrange(p.len() as int, a.len() as int) =~= decimal((c1 + 1) as nat));
        assert(b.subrange(p.len() as int, b.len() as int) =~= decimal((c2 + 1) as nat));
        lemma_decimal_injective((c1 + 1) as nat, (c2 + 1) as nat);
    }
}

/// The characters of an optional string.
pub open spec fn opt_string_view(o: Option<String>) -> Option<Seq<char>> {
    match o {
        Some(s) => Some(s@),
        None => None,
    }
}

/// Records a response that a page script received and returns its request
/// ID, so that either transport (fetch or XHR) produces an ID that
/// `Network.getResponseBody` can resolve. `request_id` is the interception
/// ID when the request was paused by `Fetch`; it is kept. Otherwise the
/// recorder numbers the request `fetch-N`.
///
/// When both limits are non-zero and the body fits, the body is buffered
/// (as text when it is UTF-8, else as base64) and the oldest bodies are
/// dropped until at most `limits.max_entries` remain. The event is always
/// appended to the log, which keeps the newest 4096 events.
pub fn record_scripted_response(
    state: &mut ScriptedNetworkState,
    request_id: Option<String>,
    response: ScriptedResponse<'_>,
    limits: BodyBufferLimits,
    timestamp_micros: u64,
) -> (r: String)
    requires
        old(state).wf(),
        request_id is None ==> old(state).counter() < u64::MAX,
        (response.body@.len() / 3) * 4 + 4 <= usize::MAX,
    ensures
        final(state).wf(),
        r@ == recorded_id(opt_string_view(request_id), old(state).counter()),
        final(state).counter() == (if request_id is None {
            (old(state).counter() + 1) as u64
        } else {
            old(state).counter()
        }),
        buffers_body(response.body@.len(), limits) ==> (final(state).body_order(), final(state).bodies())
            == evict(
            drop_id(old(state).body_order(), r@).push(r@),
            old(state).bodies().insert(r@, stored_body_of(response.body@)),
            limits.max_entries as nat,
        ),
        !buffers_body(response.body@.len(), limits) ==> final(state).body_order() == old(state).body_order()
            && final(state).bodies() == old(state).bodies(),
        final(state).events() == cap_events(
            old(state).events().push(event_of(r@, response, timestamp_micros)),
        ),
        final(state).events().len() <= MAX_JS_NETWORK_EVENTS,
        buffers_body(response.body@.len(), limits) ==> final(state).body_order().len()
            <= limits.max_entries,
        buffers_body(response.body@.len(), limits) ==> final(state).bodies().contains_key(r@)
            && final(state).bodies()[r@] == stored_body_of(response.body@),
        final(state).events().last().request_id == r@,
        final(state).events().last().url == response.url@,
        final(state).events().last().method == response.method@,
        final(state).events().last().status == response.status,
        final(state).events().last().request_headers == response.request_headers@,
        final(state).events().last().response_headers == response.headers@,
        final(state).events().last().body_size == response.body@.len(),
        final(state).events().last().timestamp_micros == timestamp_micros,
        final(state).events().last().post_data_bytes == (if response.request_body@.len() == 0 {
            None
        } else {
            Some(response.request_body@)
        }),
{
    assert(state.wf());
    assert(forall|k: Seq<char>|
        #[trigger] has_entry(state.network_response_bodies@, k) ==> order_view(state.network_response_body_order@).contains(k));
    let request_id = match request_id {
        Some(id) => id,
        None => {
            state.network_response_body_counter = state.network_response_body_counter + 1;
            let mut id = String::from_str("fetch-");
            push_decimal(&mut id, state.network_response_body_counter);
            id
        },
    };
    let ghost id = request_id@;
    let ghost order0 = order_view(state.network_response_body_order@);
    let ghost bodies0 = body_map(state.network_response_bodies@);
    if limits.max_entries > 0 && limits.max_bytes > 0 && response.body.len() <= limits.max_bytes {
        let stored = match str_from_utf8(response.body) {
            Some(text) => {
                proof {
                    encode_utf8_decode_utf8(text@);
                }
                StoredNetworkResponseBody { body: text.to_owned(), base64_encoded: false }
            },
            None => {
                let encoded = encode_standard(response.body);
                proof {
                    encode_utf8_decode_utf8(encoded@);
                }
                StoredNetworkResponseBody { body: encoded, base64_encoded: true }
            },
        };
        assert(stored@ == stored_body_of(response.body@));
        let ghost entries0 = state.network_response_bodies@;
        forget_order_position(&mut state.network_response_body_order, request_id.as_str());
        let ghost dropped = order_view(state.network_response_body_order@);
        proof {
            lemma_drop_id(order0, id);
        }
        insert_entry(
            &mut state.network_response_bodies,
            BodyEntry { request_id: request_id.clone(), body: stored },
        );
        state.network_response_body_order.push_back(request_id.clone());
        let ghost start_order = order_view(state.network_response_body_order@);
        let ghost counter1 = state.network_response_body_counter;
        let ghost log1 = state.js_network_events@;
        let ghost start_map = body_map(state.network_response_bodies@);
        assert(start_order =~= dropped.push(id));
        proof {
            assert forall|k: Seq<char>| has_entry(state.network_response_bodies@, k) implies start_order.contains(k) by {
                if k == id {
                    assert(start_order[start_order.len() - 1] == id);
                } else {
                    assert(has_entry(entries0, k));
                    assert(order0.contains(k));
                    assert(dropped.contains(k));
                    let j = choose|j: int| 0 <= j < dropped.len() && dropped[j] == k;
                    assert(start_order[j] == k);
                }
            }
            assert forall|a: int, b: int| 0 <= a < start_order.len() && 0 <= b < start_order.len() && a != b implies start_order[a] != start_order[b] by {
                if a == dropped.len() {
                    assert(start_order[b] == dropped[b]);
                } else if b == dropped.len() {
                    assert(start_order[a] == dropped[a]);
                } else {
                    assert(start_order[a] == dropped[a] && start_order[b] == dropped[b]);
                }
            }
            assert forall|i: int| 0 <= i < start_order.len() - 1 implies start_order[i] != id by {
                assert(start_order[i] == dropped[i]);
            }
            lemma_evict_keeps_last(start_order, start_map, limits.max_entries as nat, id, stored_body_of(response.body@));
        }
        while state.network_response_body_order.len() > limits.max_entries
            invariant
                state.network_response_body_counter == counter1,
                state.js_network_events@ == log1,
                ids_unique(state.network_response_bodies@),
                order_unique(order_view(state.network_response_body_order@)),
                evict(
                    order_view(state.network_response_body_order@),
                    body_map(state.network_response_bodies@),
                    limits.max_entries as nat,
                ) == evict(start_order, start_map, limits.max_entries as nat),
                forall|k: Seq<char>|
                    has_entry(state.network_response_bodies@, k) ==> order_view(
                        state.network_response_body_order@,
                    ).contains(k),
            decreases state.network_response_body_order@.len(),
        {
            let ghost before = order_view(state.network_response_body_order@);
            let ghost before_entries = state.network_response_bodies@;
            if let Some(oldest) = state.network_response_body_order.pop_front() {
                remove_entry(&mut state.network_response_bodies, oldest.as_str());
                proof {
                    let after = order_view(state.network_response_body_order@);
                    assert(after =~= before.drop_first());
                    assert(before[0] == oldest@);
                    assert forall|k: Seq<char>| has_entry(state.network_response_bodies@, k) implies after.contains(k) by {
                        assert(has_entry(before_entries, k));
                        assert(body_map(state.network_response_bodies@).contains_key(k));
                        assert(k != oldest@);
                        let j = choose|j: int| 0 <= j < before.len() && before[j] == k;
                        assert(j != 0);
                        assert(after[j - 1] == k);
                    }
                    assert forall|a: int, b: int| 0 <= a < after.len() && 0 <= b < after.len() && a != b implies after[a] != after[b] by {
                        assert(after[a] == before[a + 1] && after[b] == before[b + 1]);
                    }
                }
            }
        }
    }
    let post_data_bytes = if response.request_body.len() == 0 {
        None
    } else {
        Some(slice_to_vec(response.request_body))
    };
    let post_data = if response.request_body.len() == 0 {
        None
    } else {
        Some(string_from_utf8_lossy(response.request_body))
    };
    let ghost events0 = events_view(state.js_network_events@);
    let event = JsNetworkEvent {
        request_id: request_id.clone(),
        url: String::from_str(response.url),
        method: String::from_str(response.method),
        status: response.status,
        request_headers: response.request_headers.clone(),
        post_data_bytes,
        post_data,
        response_headers: response.headers.clone(),
        body_size: response.body.len(),
        timestamp_micros,
    };
    assert(event@ == event_of(id, response, timestamp_micros));
    state.js_network_events.push(event);
    assert(events_view(state.js_network_events@) =~= events0.push(event_of(id, response, timestamp_micros)));
    if state.js_network_events.len() > MAX_JS_NETWORK_EVENTS {
        let overflow = state.js_network_events.len() - MAX_JS_NETWORK_EVENTS;
        let ghost full = state.js_network_events@;
        let kept = state.js_network_events.split_off(overflow);
        state.js_network_events = kept;
        assert(events_view(state.js_network_events@) =~= cap_events(events_view(full)));
    }
    proof {
        law_event_log_keeps_newest(events0.push(event_of(id, response, timestamp_micros)));
        law_event_describes_exchange(id, response, timestamp_micros);
        if buffers_body(response.body@.len(), limits) {
            lemma_evict_len(drop_id(order0, id).push(id), bodies0.insert(id, stored_body_of(response.body@)), limits.max_entries as nat);
        }
    }
    request_id
}

} // verus!
