//! The `Fetch` domain: request interception.
//!
//! While interception is on, the browser pauses matching requests and hands
//! them to this state, each with a one-shot channel back to the waiting
//! network task. The client resolves a paused request by continuing it
//! (optionally rewritten), fulfilling it with a response of its own, or
//! failing it. Turning interception off lets every paused request continue
//! unchanged, so that no request is left waiting forever.
use std::collections::HashMap;
use vstd::prelude::*;
use crate::scripted_response::StoredNetworkResponseBody;
use crate::text::{
    all_digits, concat, decimal, digits_value, lemma_decimal_injective, law_decimal_spells_number,
    push_decimal, str_eq,
};

verus! {

#[verifier::external_type_specification]
#[verifier::external_body]
#[verifier::reject_recursive_types(T)]
pub struct ExOneshotSender<T>(tokio::sync::oneshot::Sender<T>);

/// How the client resolved a paused request.
#[allow(inconsistent_fields)]
#[derive(Debug)]
pub enum FetchResolution {
    /// Send the request on, with the given parts replaced.
    Continue {
        url: Option<String>,
        method: Option<String>,
        headers: Option<HashMap<String, String>>,
        post_data: Option<String>,
    },
    /// Answer the request with this response instead of sending it.
    Fulfill { status: u16, headers: Vec<(String, String)>, body: String },
    /// Fail the request with this network error reason.
    Fail { reason: String },
}

/// A request held until the client resolves it.
pub struct PausedRequest {
    pub request_id: String,
    pub url: String,
    pub method: String,
    pub headers: HashMap<String, String>,
    pub resource_type: String,
    pub resolver: tokio::sync::oneshot::Sender<FetchResolution>,
}

/// The contents of a [`PausedRequest`] (its channel aside).
pub struct PausedView {
    pub request_id: Seq<char>,
    pub url: Seq<char>,
    pub method: Seq<char>,
    pub headers: Map<String, String>,
    pub resource_type: Seq<char>,
}

impl View for PausedRequest {
    type V = PausedView;

    open spec fn view(&self) -> PausedView {
        PausedView {
            request_id: self.request_id@,
            url: self.url@,
            method: self.method@,
            headers: self.headers@,
            resource_type: self.resource_type@,
        }
    }
}

/// The characters of an optional string.
pub open spec fn opt_chars(o: Option<String>) -> Option<Seq<char>> {
    match o {
        Some(s) => Some(s@),
        None => None,
    }
}

/// Header pairs as characters, in order.
pub open spec fn pairs_view(v: Seq<(String, String)>) -> Seq<(Seq<char>, Seq<char>)> {
    v.map_values(|p: (String, String)| (p.0@, p.1@))
}

/// The value last given for header `name` in `pairs`, if any.
pub open spec fn last_value(pairs: Seq<(Seq<char>, Seq<char>)>, name: Seq<char>) -> Option<Seq<char>>
    decreases pairs.len(),
{
    if pairs.len() == 0 {
        None
    } else if pairs.last().0 == name {
        Some(pairs.last().1)
    } else {
        last_value(pairs.drop_last(), name)
    }
}

/// Header pairs as a map; a later pair for a name replaces an earlier one.
pub open spec fn header_map(pairs: Seq<(Seq<char>, Seq<char>)>) -> Map<Seq<char>, Seq<char>> {
    Map::new(|n: Seq<char>| last_value(pairs, n) is Some, |n: Seq<char>| last_value(pairs, n)->0)
}

/// No header name occurs twice.
pub open spec fn names_unique(pairs: Seq<(Seq<char>, Seq<char>)>) -> bool {
    forall|i: int, j: int|
        0 <= i < pairs.len() && 0 <= j < pairs.len() && i != j ==> (#[trigger] pairs[i]).0 != (#[trigger] pairs[j]).0
}

/// The contents of a [`FetchResolution`]. A fulfilled response's headers are
/// a map: the order in which they are sent is not part of the resolution.
#[allow(inconsistent_fields)]
pub enum ResolutionView {
    Continue {
        url: Option<Seq<char>>,
        method: Option<Seq<char>>,
        headers: Option<Map<String, String>>,
        post_data: Option<Seq<char>>,
    },
    Fulfill { status: u16, headers: Map<Seq<char>, Seq<char>>, body: Seq<char> },
    Fail { reason: Seq<char> },
}

impl View for FetchResolution {
    type V = ResolutionView;

    open spec fn view(&self) -> ResolutionView {
        match self {
            FetchResolution::Continue { url, method, headers, post_data } => ResolutionView::Continue {
                url: opt_chars(*url),
                method: opt_chars(*method),
                headers: match headers {
                    Some(h) => Some(h@),
                    None => None,
                },
                post_data: opt_chars(*post_data),
            },
            FetchResolution::Fulfill { status, headers, body } => ResolutionView::Fulfill {
                status: *status,
                headers: header_map(pairs_view(headers@)),
                body: body@,
            },
            FetchResolution::Fail { reason } => ResolutionView::Fail { reason: reason@ },
        }
    }
}

/// The resolution that lets a request go on unchanged.
pub open spec fn continue_unchanged() -> ResolutionView {
    ResolutionView::Continue { url: None, method: None, headers: None, post_data: None }
}

/// A paused request taken out of the state, with the resolution it is to
/// receive.
pub struct Delivery {
    pub paused: PausedRequest,
    pub resolution: FetchResolution,
}

/// The views of a list of deliveries.
pub open spec fn deliveries_view(d: Seq<Delivery>) -> Seq<(PausedView, ResolutionView)> {
    d.map_values(|x: Delivery| (x.paused@, x.resolution@))
}

/// The views of the paused requests, in the order they were paused.
pub open spec fn paused_view(p: Seq<PausedRequest>) -> Seq<PausedView> {
    p.map_values(|x: PausedRequest| x@)
}

/// No two paused requests share a request ID.
pub open spec fn ids_unique(p: Seq<PausedView>) -> bool {
    forall|i: int, j: int|
        0 <= i < p.len() && 0 <= j < p.len() && i != j ==> (#[trigger] p[i]).request_id != (#[trigger] p[j]).request_id
}

/// The position of the paused request with ID `id`, if there is one.
pub open spec fn find_paused(p: Seq<PausedView>, id: Seq<char>) -> Option<int> {
    if exists|i: int| 0 <= i < p.len() && (#[trigger] p[i]).request_id == id {
        Some(choose|i: int| 0 <= i < p.len() && (#[trigger] p[i]).request_id == id)
    } else {
        None
    }
}

/// The interception ID numbered `n`: `interception-` and `n` in decimal.
pub open spec fn interception_id(n: nat) -> Seq<char> {
    "interception-"@ + decimal(n)
}

/// Interception IDs read `interception-` followed by the decimal digits
/// of their number, with no leading zero.
pub proof fn law_interception_id_form(n: nat)
    ensures
        interception_id(n).len() > 13,
        interception_id(n).subrange(0, 13) == seq!['i', 'n', 't', 'e', 'r', 'c', 'e', 'p', 't', 'i', 'o', 'n', '-'],
        all_digits(interception_id(n).subrange(13, interception_id(n).len() as int)),
        digits_value(interception_id(n).subrange(13, interception_id(n).len() as int)) == n,
        interception_id(n)[13] == '0' ==> n == 0,
{
    reveal_strlit("interception-");
    law_decimal_spells_number(n);
    let id = interception_id(n);
    assert(id.subrange(13, id.len() as int) =~= decimal(n));
    assert(id.subrange(0, 13) =~= seq!['i', 'n', 't', 'e', 'r', 'c', 'e', 'p', 't', 'i', 'o', 'n', '-']);
    assert(id[13] == decimal(n)[0]);
}

/// Interception state of one CDP connection.
pub struct FetchInterceptState {
    enabled: bool,
    patterns: Vec<String>,
    paused: Vec<PausedRequest>,
    request_counter: u64,
}

/// Strings as characters, in order.
pub open spec fn strings_view(v: Seq<String>) -> Seq<Seq<char>> {
    v.map_values(|s: String| s@)
}

/// The contents of a [`FetchInterceptState`].
pub struct InterceptView {
    pub enabled: bool,
    pub patterns: Seq<Seq<char>>,
    pub paused: Seq<PausedView>,
    pub counter: u64,
}

impl View for FetchInterceptState {
    type V = InterceptView;

    closed spec fn view(&self) -> InterceptView {
        InterceptView {
            enabled: self.enabled,
            patterns: strings_view(self.patterns@),
            paused: paused_view(self.paused@),
            counter: self.request_counter,
        }
    }
}

impl FetchInterceptState {
    /// Paused requests have distinct IDs.
    pub open spec fn wf(&self) -> bool {
        &&& ids_unique(self@.paused)
        &&& self@.paused == paused_view(self.paused_requests())
    }

    /// The paused requests themselves, each with the channel to its waiting
    /// task, in the order they were paused.
    pub closed spec fn paused_requests(&self) -> Seq<PausedRequest> {
        self.paused@
    }

    /// Interception off, no patterns, nothing paused, no IDs issued yet.
    pub fn new() -> (s: Self)
        ensures
            s.wf(),
            s@ == (InterceptView { enabled: false, patterns: seq![], paused: seq![], counter: 0 }),
            s.paused_requests() == Seq::<PausedRequest>::empty(),
    {
        let s = FetchInterceptState {
            enabled: false,
            patterns: Vec::new(),
            paused: Vec::new(),
            request_counter: 0,
        };
        assert(s@.patterns =~= seq![]);
        assert(s@.paused =~= seq![]);
        assert(s.paused_requests() =~= Seq::<PausedRequest>::empty());
        s
    }

    /// The next interception ID, `interception-N` for the next value `N` of
    /// the counter.
    pub fn next_request_id(&mut self) -> (r: String)
        requires
            old(self)@.counter < u64::MAX,
        ensures
            final(self)@ == (InterceptView { counter: (old(self)@.counter + 1) as u64, ..old(self)@ }),
            final(self).paused_requests() == old(self).paused_requests(),
            r@ == interception_id((old(self)@.counter + 1) as nat),
    {
        self.request_counter = self.request_counter + 1;
        let mut id = String::from_str("interception-");
        push_decimal(&mut id, self.request_counter);
        id
    }
}

/// Calls `Sender::send` of `tokio::sync::oneshot`. Claimed, as its source
/// shows: when the receiving side is gone the value comes back unchanged
/// in `Err`. Whether the receiver is still there is left unsaid.
#[verifier::external_body]
fn send_resolution(sender: tokio::sync::oneshot::Sender<FetchResolution>, resolution: FetchResolution) -> (r: Result<(), FetchResolution>)
    ensures
        r matches Err(back) ==> back@ == resolution@,
{
    sender.send(resolution)
}

/// Hands each resolution to the task waiting on its request. A request
/// whose task has gone away is dropped.
pub fn deliver(deliveries: Vec<Delivery>) {
    let mut deliveries = deliveries;
    while deliveries.len() > 0
        decreases deliveries@.len(),
    {
        let d = deliveries.pop().unwrap();
        let _ = send_resolution(d.paused.resolver, d.resolution);
    }
}

proof fn lemma_find_paused_at(p: Seq<PausedView>, i: int)
    requires
        ids_unique(p),
        0 <= i < p.len(),
    ensures
        find_paused(p, p[i].request_id) == Some(i),
{
    let id = p[i].request_id;
    assert(exists|j: int| 0 <= j < p.len() && (#[trigger] p[j]).request_id == id);
    let j = choose|j: int| 0 <= j < p.len() && (#[trigger] p[j]).request_id == id;
    assert(j == i);
}

proof fn lemma_ids_unique_remove(p: Seq<PausedView>, i: int)
    requires
        ids_unique(p),
        0 <= i < p.len(),
    ensures
        ids_unique(p.remove(i)),
{
    let n = p.remove(i);
    assert forall|a: int, b: int| 0 <= a < n.len() && 0 <= b < n.len() && a != b implies (#[trigger] n[a]).request_id
        != (#[trigger] n[b]).request_id by {
        let a2 = if a < i { a } else { a + 1 };
        let b2 = if b < i { b } else { b + 1 };
        assert(n[a] == p[a2]);
        assert(n[b] == p[b2]);
    }
}

/// The position of the paused request with ID `id`.
fn paused_index(paused: &Vec<PausedRequest>, id: &str) -> (r: Option<usize>)
    requires
        ids_unique(paused_view(paused@)),
    ensures
        match r {
            Some(i) => find_paused(paused_view(paused@), id@) == Some(i as int) && i < paused@.len(),
            None => find_paused(paused_view(paused@), id@) is None,
        },
{
    let ghost pv = paused_view(paused@);
    let mut i: usize = 0;
    while i < paused.len()
        invariant
            pv == paused_view(paused@),
            ids_unique(pv),
            i <= paused@.len(),
            forall|j: int| 0 <= j < i ==> (#[trigger] pv[j]).request_id != id@,
        decreases paused@.len() - i,
    {
        if str_eq(paused[i].request_id.as_str(), id) {
            proof {
                assert(pv[i as int] == paused@[i as int]@);
                lemma_find_paused_at(pv, i as int);
            }
            return Some(i);
        }
        assert(pv[i as int] == paused@[i as int]@);
        i = i + 1;
    }
    None
}

impl FetchInterceptState {
    /// Holds `request` until the client resolves it. A request already held
    /// under the same ID is replaced (its waiting task sees its channel
    /// close).
    pub fn pause(&mut self, request: PausedRequest)
        requires
            old(self).wf(),
        ensures
            final(self).wf(),
            final(self)@ == (InterceptView {
                paused: match find_paused(old(self)@.paused, request.request_id@) {
                    Some(i) => old(self)@.paused.update(i, request@),
                    None => old(self)@.paused.push(request@),
                },
                ..old(self)@
            }),
            final(self).paused_requests() == (match find_paused(old(self)@.paused, request.request_id@) {
                Some(i) => old(self).paused_requests().update(i, request),
                None => old(self).paused_requests().push(request),
            }),
    {
        let ghost before = self@;
        let ghost rv = request@;
        let ghost req = request;
        match paused_index(&self.paused, request.request_id.as_str()) {
            Some(i) => {
                self.paused.set(i, request);
                proof {
                    assert(paused_view(self.paused@) =~= before.paused.update(i as int, rv));
                    let n = before.paused.update(i as int, rv);
                    assert forall|a: int, b: int| 0 <= a < n.len() && 0 <= b < n.len() && a != b implies (#[trigger] n[a]).request_id
                        != (#[trigger] n[b]).request_id by {
                        assert(before.paused[i as int].request_id == rv.request_id);
                    }
                }
            },
            None => {
                self.paused.push(request);
                proof {
                    assert(paused_view(self.paused@) =~= before.paused.push(rv));
                    let n = before.paused.push(rv);
                    assert forall|a: int, b: int| 0 <= a < n.len() && 0 <= b < n.len() && a != b implies (#[trigger] n[a]).request_id
                        != (#[trigger] n[b]).request_id by {
                        if a == before.paused.len() {
                            assert(n[b] == before.paused[b]);
                        } else if b == before.paused.len() {
                            assert(n[a] == before.paused[a]);
                        }
                    }
                }
            },
        }
        assert(self@.patterns == before.patterns);
    }

    /// Whether a request with ID `id` is paused.
    pub fn is_paused(&self, id: &str) -> (r: bool)
        requires
            self.wf(),
        ensures
            r == (find_paused(self@.paused, id@) is Some),
    {
        paused_index(&self.paused, id).is_some()
    }

    /// How many requests are paused.
    pub fn paused_count(&self) -> (r: usize)
        ensures
            r == self@.paused.len(),
    {
        self.paused.len()
    }

    /// Whether interception is on.
    pub fn enabled(&self) -> (r: bool)
        ensures
            r == self@.enabled,
    {
        self.enabled
    }

    /// The URL patterns that interception applies to.
    pub fn patterns(&self) -> (r: &Vec<String>)
        ensures
            strings_view(r@) == self@.patterns,
    {
        &self.patterns
    }
}

/// The parameters of a `Fetch` command, as plain values read from its JSON
/// `params` (a field that is absent or of another type reads as `None`).
/// `patterns` holds, for each element of the `patterns` array, its
/// `urlPattern` string; `response_headers` holds, for each element of
/// `responseHeaders`, its `name` and `value` strings.
pub struct FetchParams {
    pub request_id: Option<String>,
    pub patterns: Option<Vec<Option<String>>>,
    pub url: Option<String>,
    pub method: Option<String>,
    pub post_data: Option<String>,
    pub response_code: Option<u64>,
    pub response_headers: Option<Vec<(Option<String>, Option<String>)>>,
    pub body: Option<String>,
    pub error_reason: Option<String>,
}

/// The contents of [`FetchParams`].
pub struct ParamsView {
    pub request_id: Option<Seq<char>>,
    pub patterns: Option<Seq<Option<Seq<char>>>>,
    pub url: Option<Seq<char>>,
    pub method: Option<Seq<char>>,
    pub post_data: Option<Seq<char>>,
    pub response_code: Option<u64>,
    pub response_headers: Option<Seq<(Option<Seq<char>>, Option<Seq<char>>)>>,
    pub body: Option<Seq<char>>,
    pub error_reason: Option<Seq<char>>,
}

/// Optional strings as characters, in order.
pub open spec fn opt_strings_view(v: Seq<Option<String>>) -> Seq<Option<Seq<char>>> {
    v.map_values(|o: Option<String>| opt_chars(o))
}

/// Optional header parts as characters, in order.
pub open spec fn opt_pairs_view(v: Seq<(Option<String>, Option<String>)>) -> Seq<(Option<Seq<char>>, Option<Seq<char>>)> {
    v.map_values(|p: (Option<String>, Option<String>)| (opt_chars(p.0), opt_chars(p.1)))
}

impl View for FetchParams {
    type V = ParamsView;

    open spec fn view(&self) -> ParamsView {
        ParamsView {
            request_id: opt_chars(self.request_id),
            patterns: match self.patterns {
                Some(v) => Some(opt_strings_view(v@)),
                None => None,
            },
            url: opt_chars(self.url),
            method: opt_chars(self.method),
            post_data: opt_chars(self.post_data),
            response_code: self.response_code,
            response_headers: match self.response_headers {
                Some(v) => Some(opt_pairs_view(v@)),
                None => None,
            },
            body: opt_chars(self.body),
            error_reason: opt_chars(self.error_reason),
        }
    }
}

/// The strings present in `items`, in order.
pub open spec fn present(items: Seq<Option<Seq<char>>>) -> Seq<Seq<char>>
    decreases items.len(),
{
    if items.len() == 0 {
        seq![]
    } else {
        let rest = present(items.drop_last());
        match items.last() {
            Some(x) => rest.push(x),
            None => rest,
        }
    }
}

/// The header pairs in `items` that have both a name and a value, in order.
pub open spec fn complete_pairs(items: Seq<(Option<Seq<char>>, Option<Seq<char>>)>) -> Seq<(Seq<char>, Seq<char>)>
    decreases items.len(),
{
    if items.len() == 0 {
        seq![]
    } else {
        let rest = complete_pairs(items.drop_last());
        match items.last() {
            (Some(n), Some(v)) => rest.push((n, v)),
            _ => rest,
        }
    }
}

/// The URL patterns that `Fetch.enable` installs: the `urlPattern` of each
/// element of `patterns` that has one, or `*` (everything) when no
/// `patterns` array was given.
pub open spec fn enable_patterns(patterns: Option<Seq<Option<Seq<char>>>>) -> Seq<Seq<char>> {
    match patterns {
        Some(items) => present(items),
        None => seq!["*"@],
    }
}

/// The resolution that a `continueRequest`, `fulfillRequest` or
/// `failRequest` command gives: a continuation with the given URL, method
/// and body; a response with the given status (200 when absent, reduced to
/// 16 bits), headers (a later header of the same name wins) and body (empty
/// when absent); or a failure with the given reason (`Failed` when absent).
pub open spec fn resolution_for(method: Seq<char>, p: ParamsView) -> ResolutionView {
    if method == "continueRequest"@ {
        ResolutionView::Continue { url: p.url, method: p.method, headers: None, post_data: p.post_data }
    } else if method == "fulfillRequest"@ {
        ResolutionView::Fulfill {
            status: ((match p.response_code { Some(c) => c, None => 200 }) % 65536) as u16,
            headers: header_map(
                complete_pairs(
                    match p.response_headers {
                        Some(h) => h,
                        None => seq![],
                    },
                ),
            ),
            body: match p.body {
                Some(b) => b,
                None => ""@,
            },
        }
    } else {
        ResolutionView::Fail {
            reason: match p.error_reason {
                Some(r) => r,
                None => "Failed"@,
            },
        }
    }
}

proof fn lemma_last_value_push(s: Seq<(Seq<char>, Seq<char>)>, x: (Seq<char>, Seq<char>), k: Seq<char>)
    ensures
        last_value(s.push(x), k) == (if x.0 == k { Some(x.1) } else { last_value(s, k) }),
{
    assert(s.push(x).drop_last() =~= s);
}

proof fn lemma_last_value_absent(s: Seq<(Seq<char>, Seq<char>)>, k: Seq<char>)
    requires
        forall|i: int| 0 <= i < s.len() ==> (#[trigger] s[i]).0 != k,
    ensures
        last_value(s, k) is None,
    decreases s.len(),
{
    if s.len() > 0 {
        assert(s.last() == s[s.len() - 1]);
        lemma_last_value_absent(s.drop_last(), k);
    }
}

proof fn lemma_last_value_update(s: Seq<(Seq<char>, Seq<char>)>, j: int, v: Seq<char>, k: Seq<char>)
    requires
        names_unique(s),
        0 <= j < s.len(),
    ensures
        last_value(s.update(j, (s[j].0, v)), k) == (if s[j].0 == k { Some(v) } else { last_value(s, k) }),
    decreases s.len(),
{
    let n = s[j].0;
    let u = s.update(j, (n, v));
    if j == s.len() - 1 {
        assert(u.drop_last() =~= s.drop_last());
    } else {
        assert(u.drop_last() =~= s.drop_last().update(j, (n, v)));
        assert(u.last() == s.last());
        assert(s.last().0 != n);
        let d = s.drop_last();
        assert(names_unique(d)) by {
            assert forall|a: int, b: int| 0 <= a < d.len() && 0 <= b < d.len() && a != b implies (#[trigger] d[a]).0
                != (#[trigger] d[b]).0 by {
                assert(d[a] == s[a] && d[b] == s[b]);
            }
        }
        assert(d[j] == s[j]);
        lemma_last_value_update(d, j, v, k);
    }
}

/// Merges header pairs by name, keeping the value given last for each name.
fn merge_headers(items: &Vec<(Option<String>, Option<String>)>) -> (r: Vec<(String, String)>)
    ensures
        names_unique(pairs_view(r@)),
        header_map(pairs_view(r@)) == header_map(complete_pairs(opt_pairs_view(items@))),
{
    let ghost all = opt_pairs_view(items@);
    let mut acc: Vec<(String, String)> = Vec::new();
    let mut i: usize = 0;
    while i < items.len()
        invariant
            all == opt_pairs_view(items@),
            i <= items@.len(),
            names_unique(pairs_view(acc@)),
            forall|k: Seq<char>| #[trigger] last_value(pairs_view(acc@), k) == last_value(complete_pairs(all.take(i as int)), k),
        decreases items@.len() - i,
    {
        let ghost before = pairs_view(acc@);
        assert(all.take(i as int + 1).drop_last() =~= all.take(i as int));
        assert(all.take(i as int + 1).last() == all[i as int]);
        match &items[i] {
            (Some(name), Some(value)) => {
                let mut j: usize = 0;
                let mut found: Option<usize> = None;
                while j < acc.len()
                    invariant_except_break
                        found is None,
                        forall|a: int| 0 <= a < j ==> (#[trigger] before[a]).0 != name@,
                    invariant
                        before == pairs_view(acc@),
                        j <= acc@.len(),
                    ensures
                        match found {
                            Some(f) => f < acc@.len() && before[f as int].0 == name@,
                            None => forall|a: int| 0 <= a < before.len() ==> (#[trigger] before[a]).0 != name@,
                        },
                    decreases acc@.len() - j,
                {
                    if str_eq(acc[j].0.as_str(), name.as_str()) {
                        found = Some(j);
                        break;
                    }
                    j = j + 1;
                }
                match found {
                    Some(j) => {
                        assert(before[j as int].0 == name@);
                        acc.set(j, (acc[j].0.clone(), value.clone()));
                        proof {
                            assert(pairs_view(acc@) =~= before.update(j as int, (before[j as int].0, value@)));
                            let u = pairs_view(acc@);
                            assert forall|a: int, b: int| 0 <= a < u.len() && 0 <= b < u.len() && a != b implies (#[trigger] u[a]).0
                                != (#[trigger] u[b]).0 by {
                                assert(u[a].0 == before[a].0 && u[b].0 == before[b].0);
                            }
                            assert forall|k: Seq<char>| #[trigger] last_value(pairs_view(acc@), k) == last_value(complete_pairs(all.take(i as int + 1)), k) by {
                                lemma_last_value_update(before, j as int, value@, k);
                                lemma_last_value_push(complete_pairs(all.take(i as int)), (name@, value@), k);
                                assert(last_value(before, k) == last_value(complete_pairs(all.take(i as int)), k));
                            }
                        }
                    },
                    None => {
                        acc.push((name.clone(), value.clone()));
                        proof {
                            assert(pairs_view(acc@) =~= before.push((name@, value@)));
                            let u = pairs_view(acc@);
                            assert forall|a: int, b: int| 0 <= a < u.len() && 0 <= b < u.len() && a != b implies (#[trigger] u[a]).0
                                != (#[trigger] u[b]).0 by {
                                if a == before.len() {
                                    assert(u[b] == before[b]);
                                } else if b == before.len() {
                                    assert(u[a] == before[a]);
                                }
                            }
                            assert forall|k: Seq<char>| #[trigger] last_value(pairs_view(acc@), k) == last_value(complete_pairs(all.take(i as int + 1)), k) by {
                                lemma_last_value_push(before, (name@, value@), k);
                                lemma_last_value_push(complete_pairs(all.take(i as int)), (name@, value@), k);
                                assert(last_value(before, k) == last_value(complete_pairs(all.take(i as int)), k));
                            }
                        }
                    },
                }
            },
            _ => {
                assert(complete_pairs(all.take(i as int + 1)) == complete_pairs(all.take(i as int)));
            },
        }
        i = i + 1;
    }
    assert(all.take(items@.len() as int) =~= all);
    assert(header_map(pairs_view(acc@)) =~= header_map(complete_pairs(all)));
    acc
}

/// The URL patterns to install for `Fetch.enable`.
fn patterns_for(patterns: &Option<Vec<Option<String>>>) -> (r: Vec<String>)
    ensures
        strings_view(r@) == enable_patterns(
            match patterns {
                Some(v) => Some(opt_strings_view(v@)),
                None => None,
            },
        ),
{
    match patterns {
        None => {
            let r = vec![String::from_str("*")];
            assert(strings_view(r@) =~= seq!["*"@]);
            r
        },
        Some(items) => {
            let ghost all = opt_strings_view(items@);
            let mut out: Vec<String> = Vec::new();
            let mut i: usize = 0;
            while i < items.len()
                invariant
                    all == opt_strings_view(items@),
                    i <= items@.len(),
                    strings_view(out@) == present(all.take(i as int)),
                decreases items@.len() - i,
            {
                assert(all.take(i as int + 1).drop_last() =~= all.take(i as int));
                assert(all.take(i as int + 1).last() == all[i as int]);
                match &items[i] {
                    Some(p) => {
                        let ghost before = strings_view(out@);
                        out.push(p.clone());
                        assert(strings_view(out@) =~= before.push(p@));
                    },
                    None => {},
                }
                i = i + 1;
            }
            assert(all.take(items@.len() as int) =~= all);
            out
        },
    }
}

/// The paused requests that a list of deliveries hands resolutions to, in
/// order.
pub open spec fn delivered_requests(d: Seq<Delivery>) -> Seq<PausedRequest> {
    d.map_values(|x: Delivery| x.paused)
}

/// The position of the paused request that a resolving command takes, if
/// it names one that is paused.
pub open spec fn resolved_index(method: Seq<char>, p: ParamsView, s: InterceptView) -> Option<int> {
    if resolves(method) {
        match p.request_id {
            Some(id) => find_paused(s.paused, id),
            None => None,
        }
    } else {
        None
    }
}

/// What the caller does after a `Fetch` command that succeeded; the reply
/// is `{}` unless said otherwise.
pub enum FetchAction {
    /// Interception is on: install the state's patterns on the session's
    /// page and route its paused requests here.
    Enabled,
    /// Interception is off: clear the page's patterns, stop intercepting,
    /// and deliver these resolutions.
    Disabled { deliveries: Vec<Delivery> },
    /// Deliver these resolutions (none when the request was not paused).
    Resolved { deliveries: Vec<Delivery> },
    /// Look the body of this request up in the pages' caches; see
    /// [`response_body_reply`].
    LookupResponseBody { request_id: String },
    /// Move the body of this request out of the pages' caches into a stream;
    /// see [`stream_failure_message`].
    TakeResponseBody { request_id: String },
}

/// The contents of a [`FetchAction`].
pub enum FetchActionView {
    Enabled,
    Disabled { deliveries: Seq<(PausedView, ResolutionView)> },
    Resolved { deliveries: Seq<(PausedView, ResolutionView)> },
    LookupResponseBody { request_id: Seq<char> },
    TakeResponseBody { request_id: Seq<char> },
}

impl View for FetchAction {
    type V = FetchActionView;

    open spec fn view(&self) -> FetchActionView {
        match self {
            FetchAction::Enabled => FetchActionView::Enabled,
            FetchAction::Disabled { deliveries } => FetchActionView::Disabled {
                deliveries: deliveries_view(deliveries@),
            },
            FetchAction::Resolved { deliveries } => FetchActionView::Resolved {
                deliveries: deliveries_view(deliveries@),
            },
            FetchAction::LookupResponseBody { request_id } => FetchActionView::LookupResponseBody {
                request_id: request_id@,
            },
            FetchAction::TakeResponseBody { request_id } => FetchActionView::TakeResponseBody {
                request_id: request_id@,
            },
        }
    }
}

/// The contents of a command's outcome.
pub open spec fn result_view(r: Result<FetchAction, String>) -> Result<FetchActionView, Seq<char>> {
    match r {
        Ok(a) => Ok(a@),
        Err(e) => Err(e@),
    }
}

/// Whether `method` resolves a paused request.
pub open spec fn resolves(method: Seq<char>) -> bool {
    method == "continueRequest"@ || method == "fulfillRequest"@ || method == "failRequest"@
}

/// What `Fetch.<method>` with parameters `p` does to the state `s`: the
/// outcome and the next state.
pub open spec fn fetch_step(method: Seq<char>, p: ParamsView, s: InterceptView) -> (
    Result<FetchActionView, Seq<char>>,
    InterceptView,
) {
    if method == "enable"@ {
        (
            Ok(FetchActionView::Enabled),
            InterceptView { enabled: true, patterns: enable_patterns(p.patterns), ..s },
        )
    } else if method == "disable"@ {
        (
            Ok(
                FetchActionView::Disabled {
                    deliveries: s.paused.map_values(|q: PausedView| (q, continue_unchanged())),
                },
            ),
            InterceptView { enabled: false, patterns: seq![], paused: seq![], ..s },
        )
    } else if resolves(method) {
        match p.request_id {
            None => (Err("requestId required"@), s),
            Some(id) => match find_paused(s.paused, id) {
                Some(i) => (
                    Ok(FetchActionView::Resolved { deliveries: seq![(s.paused[i], resolution_for(method, p))] }),
                    InterceptView { paused: s.paused.remove(i), ..s },
                ),
                None => (Ok(FetchActionView::Resolved { deliveries: seq![] }), s),
            },
        }
    } else if method == "getResponseBody"@ {
        match p.request_id {
            None => (Err("Fetch.getResponseBody requires requestId"@), s),
            Some(id) => (Ok(FetchActionView::LookupResponseBody { request_id: id }), s),
        }
    } else if method == "takeResponseBodyAsStream"@ {
        match p.request_id {
            None => (Err("Fetch.takeResponseBodyAsStream requires requestId"@), s),
            Some(id) => (Ok(FetchActionView::TakeResponseBody { request_id: id }), s),
        }
    } else {
        (Err("Unknown Fetch method: "@ + method), s)
    }
}

/// The resolution that a resolving command gives.
fn build_resolution(method: &str, params: FetchParams) -> (r: FetchResolution)
    requires
        resolves(method@),
    ensures
        r@ == resolution_for(method@, params@),
        r matches FetchResolution::Fulfill { headers, .. } ==> names_unique(pairs_view(headers@)),
{
    let ghost pv = params@;
    if str_eq(method, "continueRequest") {
        FetchResolution::Continue {
            url: params.url,
            method: params.method,
            headers: None,
            post_data: params.post_data,
        }
    } else if str_eq(method, "fulfillRequest") {
        let code = match params.response_code {
            Some(c) => c,
            None => 200,
        };
        let headers = match &params.response_headers {
            Some(items) => merge_headers(items),
            None => {
                let h: Vec<(String, String)> = Vec::new();
                assert(pairs_view(h@) =~= seq![]);
                assert(complete_pairs(seq![]) =~= seq![]);
                h
            },
        };
        let body = match params.body {
            Some(b) => b,
            None => String::from_str(""),
        };
        let r = FetchResolution::Fulfill { status: (code % 65536) as u16, headers, body };
        assert(r@ == resolution_for(method@, pv));
        r
    } else {
        let reason = match params.error_reason {
            Some(r) => r,
            None => String::from_str("Failed"),
        };
        FetchResolution::Fail { reason }
    }
}

/// Runs `Fetch.<method>` with `params` against the interception state.
///
/// `enable` turns interception on with the given URL patterns (everything
/// when none are given); `disable` turns it off and lets every paused
/// request continue unchanged; `continueRequest`, `fulfillRequest` and
/// `failRequest` take the named request out of the paused set and resolve
/// it (a request that is not paused is ignored); `getResponseBody` and
/// `takeResponseBodyAsStream` name the body that the caller looks up. A
/// command that needs a `requestId` and has none, or an unknown command,
/// is an error and changes nothing. See [`fetch_step`].
pub fn handle(method: &str, params: FetchParams, state: &mut FetchInterceptState) -> (r: Result<FetchAction, String>)
    requires
        old(state).wf(),
    ensures
        final(state).wf(),
        (result_view(r), final(state)@) == fetch_step(method@, params@, old(state)@),
        method@ == "disable"@ ==> (r matches Ok(FetchAction::Disabled { deliveries })
            && delivered_requests(deliveries@) == old(state).paused_requests()
            && final(state).paused_requests() == Seq::<PausedRequest>::empty()),
        resolved_index(method@, params@, old(state)@) matches Some(i) ==> (r matches Ok(
            FetchAction::Resolved { deliveries },
        ) && deliveries@.len() == 1 && deliveries@[0].paused == old(state).paused_requests()[i]
            && final(state).paused_requests() == old(state).paused_requests().remove(i)),
        (method@ != "disable"@ && resolved_index(method@, params@, old(state)@) is None)
            ==> final(state).paused_requests() == old(state).paused_requests(),
        r matches Ok(FetchAction::Resolved { deliveries }) ==> forall|i: int|
            0 <= i < deliveries@.len() ==> ((#[trigger] deliveries@[i]).resolution matches FetchResolution::Fulfill {
                headers,
                ..
            } ==> names_unique(pairs_view(headers@))),
{
    let ghost s0 = state@;
    let ghost pv = params@;
    proof {
        reveal_strlit("enable");
        reveal_strlit("disable");
        reveal_strlit("continueRequest");
        reveal_strlit("fulfillRequest");
        reveal_strlit("failRequest");
        reveal_strlit("getResponseBody");
        reveal_strlit("takeResponseBodyAsStream");
    }
    if str_eq(method, "enable") {
        let patterns = patterns_for(&params.patterns);
        state.enabled = true;
        state.patterns = patterns;
        Ok(FetchAction::Enabled)
    } else if str_eq(method, "disable") {
        state.enabled = false;
        state.patterns.clear();
        let mut taken: Vec<PausedRequest> = Vec::new();
        std::mem::swap(&mut taken, &mut state.paused);
        let ghost all = paused_view(taken@);
        let ghost vals = taken@;
        assert(all == s0.paused);
        let mut deliveries: Vec<Delivery> = Vec::new();
        while taken.len() > 0
            invariant
                all == paused_view(vals),
                delivered_requests(deliveries@) == vals.take(deliveries@.len() as int),
                taken@ == vals.skip(deliveries@.len() as int),
                deliveries_view(deliveries@) == all.take(deliveries@.len() as int).map_values(
                    |q: PausedView| (q, continue_unchanged()),
                ),
                paused_view(taken@) == all.skip(deliveries@.len() as int),
                deliveries@.len() <= all.len(),
            decreases taken@.len(),
        {
            let ghost k = deliveries@.len() as int;
            let ghost before = deliveries_view(deliveries@);
            let ghost rest = paused_view(taken@);
            let ghost before_requests = delivered_requests(deliveries@);
            let ghost rest_values = taken@;
            let p = taken.remove(0);
            proof {
                assert(rest[0] == p@);
                assert(taken@ =~= vals.skip(k + 1));
                assert(paused_view(taken@) =~= rest.drop_first());
            }
            deliveries.push(
                Delivery {
                    paused: p,
                    resolution: FetchResolution::Continue {
                        url: None,
                        method: None,
                        headers: None,
                        post_data: None,
                    },
                },
            );
            proof {
                assert(deliveries_view(deliveries@) =~= before.push((p@, continue_unchanged())));
                assert(rest_values[0] == vals[k]);
                assert(delivered_requests(deliveries@) =~= before_requests.push(p));
                assert(vals.take(k + 1) =~= vals.take(k).push(vals[k]));
                assert(all.take(k + 1).map_values(|q: PausedView| (q, continue_unchanged())) =~= all.take(
                    k,
                ).map_values(|q: PausedView| (q, continue_unchanged())).push((all[k], continue_unchanged())));
                assert(all.skip(k + 1) =~= all.skip(k).drop_first());
            }
        }
        assert(all.take(all.len() as int) =~= all);
        assert(vals.take(vals.len() as int) =~= vals);
        assert(state.paused_requests() =~= Seq::<PausedRequest>::empty());
        assert(state@.patterns =~= seq![]);
        assert(state@.paused =~= seq![]);
        Ok(FetchAction::Disabled { deliveries })
    } else if str_eq(method, "continueRequest") || str_eq(method, "fulfillRequest") || str_eq(
        method,
        "failRequest",
    ) {
        let id = match &params.request_id {
            Some(id) => id.clone(),
            None => return Err(String::from_str("requestId required")),
        };
        let resolution = build_resolution(method, params);
        match paused_index(&state.paused, id.as_str()) {
            Some(i) => {
                let ghost before = paused_view(state.paused@);
                let p = state.paused.remove(i);
                proof {
                    assert(paused_view(state.paused@) =~= before.remove(i as int));
                    lemma_ids_unique_remove(before, i as int);
                }
                let deliveries = vec![Delivery { paused: p, resolution }];
                assert(deliveries_view(deliveries@) =~= seq![(before[i as int], resolution_for(method@, pv))]);
                Ok(FetchAction::Resolved { deliveries })
            },
            None => {
                let deliveries: Vec<Delivery> = Vec::new();
                assert(deliveries_view(deliveries@) =~= seq![]);
                Ok(FetchAction::Resolved { deliveries })
            },
        }
    } else if str_eq(method, "getResponseBody") {
        match params.request_id {
            Some(id) => Ok(FetchAction::LookupResponseBody { request_id: id }),
            None => Err(String::from_str("Fetch.getResponseBody requires requestId")),
        }
    } else if str_eq(method, "takeResponseBodyAsStream") {
        match params.request_id {
            Some(id) => Ok(FetchAction::TakeResponseBody { request_id: id }),
            None => Err(String::from_str("Fetch.takeResponseBodyAsStream requires requestId")),
        }
    } else {
        Err(concat("Unknown Fetch method: ", method))
    }
}

/// The reply to `Fetch.getResponseBody` once the pages' caches were
/// searched: the body (sent as `body` and `base64Encoded`), or an error
/// that names the request.
pub fn response_body_reply(request_id: &str, found: Option<StoredNetworkResponseBody>) -> (r: Result<
    StoredNetworkResponseBody,
    String,
>)
    ensures
        r is Ok <==> found is Some,
        r matches Ok(b) ==> b@ == found->0@,
        r matches Err(e) ==> e@ == "No response body found for Fetch requestId "@ + request_id@,
{
    match found {
        Some(body) => Ok(body),
        None => Err(concat("No response body found for Fetch requestId ", request_id)),
    }
}

/// Why `Fetch.takeResponseBodyAsStream` could not hand out a stream.
pub enum StreamFailure {
    /// The command's session has no page.
    NoPage,
    /// No page has a cached body for the request.
    NoCachedBody,
    /// The stream table refused the body, with this error text.
    Refused { error: String },
}

/// The error that `Fetch.takeResponseBodyAsStream` replies with.
pub fn stream_failure_message(request_id: &str, failure: StreamFailure) -> (r: String)
    ensures
        r@ == (match failure {
            StreamFailure::NoPage => "No page"@,
            StreamFailure::NoCachedBody => "Fetch.takeResponseBodyAsStream: no cached body for "@ + request_id@,
            StreamFailure::Refused { error } => "Fetch.takeResponseBodyAsStream: "@ + error@,
        }),
{
    match failure {
        StreamFailure::NoPage => String::from_str("No page"),
        StreamFailure::NoCachedBody => concat("Fetch.takeResponseBodyAsStream: no cached body for ", request_id),
        StreamFailure::Refused { error } => concat("Fetch.takeResponseBodyAsStream: ", error.as_str()),
    }
}

/// Turning interception off releases every paused request: each gets
/// exactly one resolution, which lets it continue unchanged, in the order
/// they were paused; nothing stays paused and no pattern stays installed.
pub proof fn law_disable_releases_every_request(p: ParamsView, s: InterceptView)
    ensures
        ({
            let (out, next) = fetch_step("disable"@, p, s);
            &&& out matches Ok(FetchActionView::Disabled { deliveries }) && deliveries.len() == s.paused.len()
                && forall|i: int| 0 <= i < s.paused.len() ==> #[trigger] deliveries[i] == (s.paused[i], continue_unchanged())
            &&& next.paused.len() == 0
            &&& next.patterns.len() == 0
            &&& !next.enabled
        }),
{
    reveal_strlit("disable");
    reveal_strlit("enable");
    assert("disable"@ != "enable"@) by {
        assert("disable"@.len() != "enable"@.len());
    }
    let d = s.paused.map_values(|q: PausedView| (q, continue_unchanged()));
    assert forall|i: int| 0 <= i < s.paused.len() implies #[trigger] d[i] == (s.paused[i], continue_unchanged()) by {}
}

/// A paused request is resolved at most once: resolving it takes it out of
/// the paused set, so a second resolution of the same ID delivers nothing
/// and changes nothing; and every other paused request stays paused.
pub proof fn law_resolved_at_most_once(
    m1: Seq<char>,
    p1: ParamsView,
    m2: Seq<char>,
    p2: ParamsView,
    s: InterceptView,
    id: Seq<char>,
)
    requires
        resolves(m1),
        resolves(m2),
        p1.request_id == Some(id),
        p2.request_id == Some(id),
        ids_unique(s.paused),
    ensures
        ({
            let (_, s1) = fetch_step(m1, p1, s);
            let (out2, s2) = fetch_step(m2, p2, s1);
            &&& find_paused(s1.paused, id) is None
            &&& out2 == Ok::<FetchActionView, Seq<char>>(FetchActionView::Resolved { deliveries: seq![] })
            &&& s2 == s1
            &&& forall|k: Seq<char>| k != id ==> (#[trigger] find_paused(s1.paused, k) is Some <==> find_paused(s.paused, k) is Some)
        }),
{
    reveal_strlit("enable");
    reveal_strlit("disable");
    reveal_strlit("continueRequest");
    reveal_strlit("fulfillRequest");
    reveal_strlit("failRequest");
    assert(m1 != "enable"@ && m1 != "disable"@);
    assert(m2 != "enable"@ && m2 != "disable"@);
    let (_, s1) = fetch_step(m1, p1, s);
    match find_paused(s.paused, id) {
        Some(i) => {
            lemma_find_paused_at(s.paused, i);
            let n = s.paused.remove(i);
            assert(s1.paused == n);
            assert forall|j: int| 0 <= j < n.len() implies (#[trigger] n[j]).request_id != id by {
                let j2 = if j < i { j } else { j + 1 };
                assert(n[j] == s.paused[j2]);
            }
            assert forall|k: Seq<char>| k != id implies (#[trigger] find_paused(n, k) is Some <==> find_paused(s.paused, k) is Some) by {
                if find_paused(s.paused, k) is Some {
                    let j = choose|j: int| 0 <= j < s.paused.len() && (#[trigger] s.paused[j]).request_id == k;
                    assert(j != i);
                    let j2 = if j < i { j } else { j - 1 };
                    assert(n[j2] == s.paused[j]);
                }
                if find_paused(n, k) is Some {
                    let j = choose|j: int| 0 <= j < n.len() && (#[trigger] n[j]).request_id == k;
                    let j2 = if j < i { j } else { j + 1 };
                    assert(n[j] == s.paused[j2]);
                }
            }
        },
        None => {},
    }
}

/// Interception IDs issued from different counter values differ.
pub proof fn law_interception_ids_distinct(c1: u64, c2: u64)
    requires
        c1 != c2,
    ensures
        "interception-"@ + decimal((c1 + 1) as nat) != "interception-"@ + decimal((c2 + 1) as nat),
{
    let p = "interception-"@;
    let a = p + decimal((c1 + 1) as nat);
    let b = p + decimal((c2 + 1) as nat);
    if a == b {
        assert(a.subrange(p.len() as int, a.len() as int) =~= decimal((c1 + 1) as nat));
        assert(b.subrange(p.len() as int, b.len() as int) =~= decimal((c2 + 1) as nat));
        lemma_decimal_injective((c1 + 1) as nat, (c2 + 1) as nat);
    }
}

/// Whether the `i`-th header item has both a name `n` and a value.
pub open spec fn names_header(items: Seq<(Option<Seq<char>>, Option<Seq<char>>)>, i: int, n: Seq<char>) -> bool {
    items[i].0 == Some(n) && items[i].1 is Some
}

proof fn lemma_complete_pairs_last_value(items: Seq<(Option<Seq<char>>, Option<Seq<char>>)>, n: Seq<char>)
    ensures
        (forall|i: int| 0 <= i < items.len() ==> !#[trigger] names_header(items, i, n)) ==> last_value(
            complete_pairs(items),
            n,
        ) is None,
        forall|i: int|
            0 <= i < items.len() && #[trigger] names_header(items, i, n) && (forall|j: int|
                i < j < items.len() ==> !names_header(items, j, n)) ==> last_value(complete_pairs(items), n)
                == items[i].1,
    decreases items.len(),
{
    if items.len() > 0 {
        let d = items.drop_last();
        let last = items.len() - 1;
        lemma_complete_pairs_last_value(d, n);
        let rest = complete_pairs(d);
        let cp = complete_pairs(items);
        assert(items.last() == items[last]);
        assert forall|i: int| 0 <= i < d.len() implies #[trigger] names_header(d, i, n) == names_header(items, i, n) by {
            assert(d[i] == items[i]);
        }
        // What the last item does to the value of `n`.
        let same = match items[last] {
            (Some(m), Some(v)) => {
                lemma_last_value_push(rest, (m, v), n);
                m != n
            },
            _ => true,
        };
        assert(same ==> last_value(cp, n) == last_value(rest, n));
        assert(!same ==> names_header(items, last, n) && last_value(cp, n) == items[last].1);
        assert(same ==> !names_header(items, last, n));
        if forall|i: int| 0 <= i < items.len() ==> !#[trigger] names_header(items, i, n) {
            assert(!names_header(items, last, n));
            assert forall|i: int| 0 <= i < d.len() implies !#[trigger] names_header(d, i, n) by {
                assert(!names_header(items, i, n));
            }
        }
        assert forall|i: int|
            0 <= i < items.len() && #[trigger] names_header(items, i, n) && (forall|j: int|
                i < j < items.len() ==> !names_header(items, j, n)) implies last_value(cp, n) == items[i].1 by {
            if i < last {
                assert(!names_header(items, last, n));
                assert(names_header(d, i, n));
                assert forall|j: int| i < j < d.len() implies !names_header(d, j, n) by {
                    assert(!names_header(items, j, n));
                }
                assert(d[i] == items[i]);
            }
        }
    }
}

proof fn lemma_last_naming(items: Seq<(Option<Seq<char>>, Option<Seq<char>>)>, n: Seq<char>, i: int) -> (k: int)
    requires
        0 <= i < items.len(),
        names_header(items, i, n),
    ensures
        i <= k < items.len(),
        names_header(items, k, n),
        forall|j: int| k < j < items.len() ==> !#[trigger] names_header(items, j, n),
    decreases items.len() - i,
{
    if exists|j: int| i < j < items.len() && #[trigger] names_header(items, j, n) {
        let j = choose|j: int| i < j < items.len() && #[trigger] names_header(items, j, n);
        lemma_last_naming(items, n, j)
    } else {
        i
    }
}

/// A fulfilled response carries each header name that was given with both
/// a name and a value, with the value given last for that name, and no
/// other header.
pub proof fn law_fulfill_headers(items: Seq<(Option<Seq<char>>, Option<Seq<char>>)>, n: Seq<char>)
    ensures
        header_map(complete_pairs(items)).contains_key(n) <==> exists|i: int|
            0 <= i < items.len() && #[trigger] names_header(items, i, n),
        forall|i: int|
            0 <= i < items.len() && #[trigger] names_header(items, i, n) && (forall|j: int|
                i < j < items.len() ==> !names_header(items, j, n)) ==> header_map(complete_pairs(items))[n]
                == items[i].1->0,
{
    lemma_complete_pairs_last_value(items, n);
    if exists|i: int| 0 <= i < items.len() && #[trigger] names_header(items, i, n) {
        // The last item that names `n` decides.
        let i0 = choose|i: int| 0 <= i < items.len() && #[trigger] names_header(items, i, n);
        let k = lemma_last_naming(items, n, i0);
        assert(last_value(complete_pairs(items), n) == items[k].1);
    }
}

proof fn lemma_push_contains<A>(s: Seq<A>, x: A, k: A)
    ensures
        s.push(x).contains(k) <==> (s.contains(k) || x == k),
{
    let t = s.push(x);
    if s.contains(k) {
        let i = choose|i: int| 0 <= i < s.len() && s[i] == k;
        assert(t[i] == k);
    }
    if x == k {
        assert(t[s.len() as int] == k);
    }
    if t.contains(k) {
        let i = choose|i: int| 0 <= i < t.len() && t[i] == k;
        if i < s.len() {
            assert(s[i] == k);
        }
    }
}

/// The URL patterns that `Fetch.enable` installs: `*` when no `patterns`
/// array is given, else exactly the `urlPattern` strings given, in order.
pub proof fn law_enable_patterns(items: Seq<Option<Seq<char>>>)
    ensures
        enable_patterns(None) == seq!["*"@],
        forall|k: Seq<char>| #[trigger] present(items).contains(k) <==> items.contains(Some(k)),
        (forall|i: int| 0 <= i < items.len() ==> items[i] is Some) ==> present(items).len() == items.len()
            && forall|i: int| 0 <= i < items.len() ==> #[trigger] present(items)[i] == items[i]->0,
    decreases items.len(),
{
    if items.len() == 0 {
        assert forall|k: Seq<char>| #[trigger] present(items).contains(k) <==> items.contains(Some(k)) by {
            assert(present(items) =~= Seq::<Seq<char>>::empty());
        }
    } else {
        let d = items.drop_last();
        let x = items.last();
        law_enable_patterns(d);
        assert(items =~= d.push(x));
        assert forall|k: Seq<char>| #[trigger] present(items).contains(k) <==> items.contains(Some(k)) by {
            lemma_push_contains(d, x, Some(k));
            match x {
                Some(v) => {
                    lemma_push_contains(present(d), v, k);
                },
                None => {},
            }
        }
        if forall|i: int| 0 <= i < items.len() ==> items[i] is Some {
            assert forall|i: int| 0 <= i < d.len() implies d[i] is Some by {
                assert(d[i] == items[i]);
            }
            assert(items[items.len() - 1] is Some);
            assert forall|i: int| 0 <= i < items.len() implies #[trigger] present(items)[i] == items[i]->0 by {
                if i < items.len() - 1 {
                    assert(d[i] == items[i]);
                    assert(present(d)[i] == d[i]->0);
                }
            }
        }
    }
}

/// Resolving a paused request hands it the resolution its command asks for:
/// `continueRequest` the given URL, method and body, each on its own;
/// `fulfillRequest` the given status (200 when absent, taken modulo 65536)
/// and body (empty when absent); `failRequest` the given reason (`Failed`
/// when absent). The request named is the one resolved, and it leaves the
/// paused list.
pub proof fn law_resolutions_carry_params(p: ParamsView, s: InterceptView, id: Seq<char>, i: int)
    requires
        p.request_id == Some(id),
        find_paused(s.paused, id) == Some(i),
    ensures
        s.paused[i].request_id == id,
        fetch_step("continueRequest"@, p, s) == (
            Ok::<FetchActionView, Seq<char>>(
                FetchActionView::Resolved {
                    deliveries: seq![
                        (
                            s.paused[i],
                            ResolutionView::Continue {
                                url: p.url,
                                method: p.method,
                                headers: None,
                                post_data: p.post_data,
                            },
                        ),
                    ],
                },
            ),
            InterceptView { paused: s.paused.remove(i), ..s },
        ),
        fetch_step("failRequest"@, p, s) == (
            Ok::<FetchActionView, Seq<char>>(
                FetchActionView::Resolved {
                    deliveries: seq![
                        (
                            s.paused[i],
                            ResolutionView::Fail {
                                reason: match p.error_reason {
                                    Some(r) => r,
                                    None => "Failed"@,
                                },
                            },
                        ),
                    ],
                },
            ),
            InterceptView { paused: s.paused.remove(i), ..s },
        ),
        ({
            let (out, next) = fetch_step("fulfillRequest"@, p, s);
            &&& next == InterceptView { paused: s.paused.remove(i), ..s }
            &&& out matches Ok(FetchActionView::Resolved { deliveries })
            &&& out->Ok_0->Resolved_deliveries.len() == 1
            &&& out->Ok_0->Resolved_deliveries[0].0 == s.paused[i]
            &&& out->Ok_0->Resolved_deliveries[0].1 matches ResolutionView::Fulfill { status, headers, body }
            &&& out->Ok_0->Resolved_deliveries[0].1->status as int == (match p.response_code {
                Some(c) => c as int,
                None => 200,
            }) % 65536
            &&& out->Ok_0->Resolved_deliveries[0].1->body == (match p.body {
                Some(b) => b,
                None => seq![],
            })
        }),
{
    reveal_strlit("enable");
    reveal_strlit("disable");
    reveal_strlit("continueRequest");
    reveal_strlit("fulfillRequest");
    reveal_strlit("failRequest");
    reveal_strlit("");
    assert("continueRequest"@ != "enable"@ && "continueRequest"@ != "disable"@) by {
        assert("continueRequest"@.len() != "enable"@.len() && "continueRequest"@.len() != "disable"@.len());
    }
    assert("fulfillRequest"@ != "enable"@ && "fulfillRequest"@ != "disable"@) by {
        assert("fulfillRequest"@.len() != "enable"@.len() && "fulfillRequest"@.len() != "disable"@.len());
    }
    assert("failRequest"@ != "enable"@ && "failRequest"@ != "disable"@) by {
        assert("failRequest"@.len() != "enable"@.len() && "failRequest"@.len() != "disable"@.len());
    }
    assert("fulfillRequest"@ != "continueRequest"@) by {
        assert("fulfillRequest"@.len() != "continueRequest"@.len());
    }
    assert("failRequest"@ != "continueRequest"@ && "failRequest"@ != "fulfillRequest"@) by {
        assert("failRequest"@[2] != "continueRequest"@[2]);
        assert("failRequest"@[2] != "fulfillRequest"@[2]);
    }
    assert(exists|j: int| 0 <= j < s.paused.len() && (#[trigger] s.paused[j]).request_id == id);
}

} // verus!
