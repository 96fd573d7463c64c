//! The in-memory document of saved requests, collections, call history,
//! environments and settings, with the rules for changing it.

use vstd::prelude::*;
use vstd::string::*;
use crate::client::Response;
use crate::clock::{new_id, now_millis};
use crate::error::TerziError;
use crate::request::{copy_opt, opt_view, CollectionView, RequestCollection, RequestView, SavedRequest};
use crate::table::{Duplicate, Table};
use crate::text::{contains, contains_exec, lex_le, lower_of, owned, str_eq, to_lower};
use crate::sorting::{lemma_map_multiset, sort_by_key_desc, sort_by_name, sorted_by_name, sorted_desc};

verus! {

broadcast use vstd::seq_lib::group_to_multiset_ensures;

/// The most history entries kept; the oldest go first.
pub const HISTORY_LIMIT: usize = 1000;

/// One executed (or failed) request.
#[derive(Debug, Clone)]
pub struct HistoryEntry {
    pub id: String,
    /// Milliseconds since the Unix epoch.
    pub timestamp: i64,
    pub method: String,
    pub url: String,
    pub response_status: Option<u16>,
    pub duration_ms: Option<u64>,
    pub request_size: Option<usize>,
    pub response_size: Option<usize>,
    pub error_message: Option<String>,
}

/// What a history entry records, as plain values.
pub struct HistoryView {
    pub id: Seq<char>,
    pub timestamp: i64,
    pub method: Seq<char>,
    pub url: Seq<char>,
    pub response_status: Option<u16>,
    pub duration_ms: Option<u64>,
    pub request_size: Option<usize>,
    pub response_size: Option<usize>,
    pub error_message: Option<Seq<char>>,
}

impl View for HistoryEntry {
    type V = HistoryView;

    open spec fn view(&self) -> HistoryView {
        HistoryView {
            id: self.id@,
            timestamp: self.timestamp,
            method: self.method@,
            url: self.url@,
            response_status: self.response_status,
            duration_ms: self.duration_ms,
            request_size: self.request_size,
            response_size: self.response_size,
            error_message: opt_view(self.error_message),
        }
    }
}

impl Duplicate for HistoryEntry {
    open spec fn dup_ok(&self) -> bool {
        true
    }

    fn duplicate(&self) -> (r: Self) {
        HistoryEntry {
            id: self.id.clone(),
            timestamp: self.timestamp,
            method: self.method.clone(),
            url: self.url.clone(),
            response_status: self.response_status,
            duration_ms: self.duration_ms,
            request_size: self.request_size,
            response_size: self.response_size,
            error_message: copy_opt(&self.error_message),
        }
    }
}

/// The views of a list of history entries, in order.
pub open spec fn history_view(h: Seq<HistoryEntry>) -> Seq<HistoryView> {
    h.map_values(|e: HistoryEntry| e@)
}

/// The history after appending `e`: the oldest entry goes once the limit is passed.
pub open spec fn push_capped(h: Seq<HistoryView>, e: HistoryView) -> Seq<HistoryView> {
    if h.len() + 1 > HISTORY_LIMIT {
        h.push(e).skip(1)
    } else {
        h.push(e)
    }
}

/// The history after appending each of `es` in turn.
pub open spec fn push_all(h: Seq<HistoryView>, es: Seq<HistoryView>) -> Seq<HistoryView>
    decreases es.len(),
{
    if es.len() == 0 {
        h
    } else {
        push_capped(push_all(h, es.drop_last()), es.last())
    }
}

/// The last `n` elements of `s` (all of them when there are fewer).
pub open spec fn last_n<A>(s: Seq<A>, n: nat) -> Seq<A> {
    if s.len() <= n {
        s
    } else {
        s.skip(s.len() - n)
    }
}

/// The history never holds more than the limit: starting empty and appending
/// any number of entries leaves exactly the newest `HISTORY_LIMIT` of them, in
/// order; the oldest are evicted first.
pub proof fn lemma_history_capped(es: Seq<HistoryView>)
    ensures
        push_all(Seq::empty(), es) == last_n(es, HISTORY_LIMIT as nat),
        push_all(Seq::empty(), es).len() <= HISTORY_LIMIT,
    decreases es.len(),
{
    if es.len() > 0 {
        lemma_history_capped(es.drop_last());
        assert(push_all(Seq::empty(), es) =~= last_n(es, HISTORY_LIMIT as nat));
    }
}

/// Exporting everything and importing the result without merging gives back
/// the document exactly: an export carries the whole document, and a document
/// within the history limit is kept whole by a replacing import.
pub proof fn lemma_export_import_round_trip(d: DataView)
    requires
        d.history.len() <= HISTORY_LIMIT,
    ensures
        with_history(d, last_n(d.history, HISTORY_LIMIT as nat)) == d,
{
}

/// The whole document, as plain values.
pub struct DataView {
    pub requests: Map<Seq<char>, RequestView>,
    pub collections: Map<Seq<char>, CollectionView>,
    pub history: Seq<HistoryView>,
    pub environments: Map<Seq<char>, Map<Seq<char>, Seq<char>>>,
    pub settings: Map<Seq<char>, Seq<char>>,
}

/// The whole document: requests by name, collections by name, history
/// (oldest first), environments by name, and settings.
#[derive(Debug, Clone)]
pub struct StorageData {
    pub requests: Table<SavedRequest>,
    pub collections: Table<RequestCollection>,
    pub history: Vec<HistoryEntry>,
    pub environments: Table<Table<String>>,
    pub settings: Table<String>,
}

impl View for StorageData {
    type V = DataView;

    open spec fn view(&self) -> DataView {
        DataView {
            requests: self.requests@,
            collections: self.collections@,
            history: history_view(self.history@),
            environments: self.environments@,
            settings: self.settings@,
        }
    }
}

/// A copy of a history list.
fn copy_history(h: &Vec<HistoryEntry>) -> (r: Vec<HistoryEntry>)
    ensures
        history_view(r@) == history_view(h@),
{
    let mut out: Vec<HistoryEntry> = Vec::new();
    let mut i: usize = 0;
    while i < h.len()
        invariant
            i <= h@.len(),
            out@.len() == i,
            forall|j: int| 0 <= j < i ==> (#[trigger] out@[j])@ == h@[j]@,
        decreases h@.len() - i,
    {
        out.push(h[i].duplicate());
        i = i + 1;
    }
    assert(history_view(out@) =~= history_view(h@));
    out
}

impl StorageData {
    /// Every table has unique keys and copyable values.
    pub open spec fn tables_ok(&self) -> bool {
        &&& self.requests.deep_ok()
        &&& self.collections.deep_ok()
        &&& self.environments.deep_ok()
        &&& self.settings.deep_ok()
    }

    /// The tables are well formed and the history is within its limit.
    pub open spec fn wf(&self) -> bool {
        self.tables_ok() && self.history@.len() <= HISTORY_LIMIT
    }

    /// An empty document.
    pub fn new() -> (r: Self)
        ensures
            r.wf(),
            r@ == (DataView {
                requests: Map::empty(),
                collections: Map::empty(),
                history: Seq::empty(),
                environments: Map::empty(),
                settings: Map::empty(),
            }),
    {
        let r = StorageData {
            requests: Table::new(),
            collections: Table::new(),
            history: Vec::new(),
            environments: Table::new(),
            settings: Table::new(),
        };
        assert(history_view(r.history@) =~= Seq::<HistoryView>::empty());
        r
    }

    /// A copy with the same contents.
    pub fn copy(&self) -> (r: Self)
        requires
            self.tables_ok(),
        ensures
            r.tables_ok(),
            r.history@.len() == self.history@.len(),
            r@ == self@,
    {
        let h = copy_history(&self.history);
        proof {
            assert(h@.len() == history_view(h@).len());
        }
        StorageData {
            requests: self.requests.duplicate(),
            collections: self.collections.duplicate(),
            history: h,
            environments: self.environments.duplicate(),
            settings: self.settings.duplicate(),
        }
    }
}

/// Success (2xx), client error (4xx), server error (5xx) and failure counts, and
/// duration figures over the entries that record a duration.
#[derive(Debug, Clone, Copy, PartialEq, Eq)]
pub struct HistoryStats {
    pub total_requests: usize,
    pub successful_requests: usize,
    pub client_errors: usize,
    pub server_errors: usize,
    pub failed_requests: usize,
    pub total_duration_ms: u128,
    pub average_duration_ms: Option<u64>,
    pub min_duration_ms: Option<u64>,
    pub max_duration_ms: Option<u64>,
}

/// The running figures over a history, before the average is taken.
pub struct Tally {
    pub total: nat,
    pub success: nat,
    pub client: nat,
    pub server: nat,
    pub failed: nat,
    pub timed: nat,
    pub sum: nat,
    pub min: Option<u64>,
    pub max: Option<u64>,
}

/// The figures over `h`.
pub open spec fn tally(h: Seq<HistoryView>) -> Tally
    decreases h.len(),
{
    if h.len() == 0 {
        Tally {
            total: 0,
            success: 0,
            client: 0,
            server: 0,
            failed: 0,
            timed: 0,
            sum: 0,
            min: None,
            max: None,
        }
    } else {
        let t = tally(h.drop_last());
        let e = h.last();
        let (s, c, v, f) = match e.response_status {
            Some(st) => (
                if 200 <= st <= 299 { 1nat } else { 0nat },
                if 400 <= st <= 499 { 1nat } else { 0nat },
                if 500 <= st <= 599 { 1nat } else { 0nat },
                0nat,
            ),
            None => (0nat, 0nat, 0nat, 1nat),
        };
        let t2 = Tally {
            total: t.total + 1,
            success: t.success + s,
            client: t.client + c,
            server: t.server + v,
            failed: t.failed + f,
            ..t
        };
        match e.duration_ms {
            Some(d) => Tally {
                timed: t2.timed + 1,
                sum: t2.sum + d as nat,
                min: match t2.min {
                    Some(m) => Some(if d < m { d } else { m }),
                    None => Some(d),
                },
                max: match t2.max {
                    Some(m) => Some(if d > m { d } else { m }),
                    None => Some(d),
                },
                ..t2
            },
            None => t2,
        }
    }
}

/// The statistics that a tally gives: the average is the integer mean over
/// the entries with a duration.
pub open spec fn stats_of(t: Tally) -> HistoryStats {
    HistoryStats {
        total_requests: t.total as usize,
        successful_requests: t.success as usize,
        client_errors: t.client as usize,
        server_errors: t.server as usize,
        failed_requests: t.failed as usize,
        total_duration_ms: t.sum as u128,
        average_duration_ms: if t.timed > 0 {
            Some((t.sum / t.timed) as u64)
        } else {
            None
        },
        min_duration_ms: t.min,
        max_duration_ms: t.max,
    }
}

/// Bounds that hold of every tally.
proof fn lemma_tally_bounds(h: Seq<HistoryView>)
    ensures
        tally(h).total == h.len(),
        tally(h).success <= h.len(),
        tally(h).client <= h.len(),
        tally(h).server <= h.len(),
        tally(h).failed <= h.len(),
        tally(h).timed <= h.len(),
        tally(h).sum <= tally(h).timed * 18446744073709551615,
        tally(h).timed > 0 ==> tally(h).max is Some && tally(h).sum <= tally(h).timed * (tally(
            h,
        ).max->Some_0 as nat),
        tally(h).timed == 0 ==> tally(h).max is None && tally(h).sum == 0,
    decreases h.len(),
{
    if h.len() > 0 {
        lemma_tally_bounds(h.drop_last());
        let t = tally(h.drop_last());
        let e = h.last();
        if e.duration_ms is Some && t.timed == 0 {
            assert(tally(h).sum == e.duration_ms->Some_0 as nat);
            assert(tally(h).max == Some(e.duration_ms->Some_0));
            assert(tally(h).timed == 1);
        }
        if e.duration_ms is Some && t.timed > 0 {
            let d = e.duration_ms->Some_0 as nat;
            let m = t.max->Some_0 as nat;
            let nm = if d > m { d } else { m };
            assert(t.sum + d <= (t.timed + 1) * nm) by (nonlinear_arith)
                requires
                    t.sum <= t.timed * m,
                    m <= nm,
                    d <= nm,
            ;
        }
        assert(tally(h).sum <= tally(h).timed * 18446744073709551615) by (nonlinear_arith)
            requires
                tally(h).sum <= t.sum + 18446744073709551615,
                t.sum <= t.timed * 18446744073709551615,
                tally(h).timed == t.timed + 1 || tally(h).sum == t.sum,
                tally(h).timed >= t.timed,
        ;
    }
}

/// `q` occurs in `field`, ignoring case.
pub open spec fn has_ci(field: Seq<char>, q: Seq<char>) -> bool {
    contains(lower_of(field), lower_of(q))
}

/// Some tag holds `q`, ignoring case.
pub open spec fn any_tag_ci(tags: Seq<Seq<char>>, q: Seq<char>) -> bool {
    exists|i: int| 0 <= i < tags.len() && has_ci(#[trigger] tags[i], q)
}

/// A request matches a listing filter on its name, URL, method or a tag.
pub open spec fn matches_filter(r: RequestView, f: Seq<char>) -> bool {
    has_ci(r.name, f) || has_ci(r.url, f) || has_ci(r.method, f) || any_tag_ci(r.tags, f)
}

/// A request passes a listing filter: there is none, or it matches.
pub open spec fn passes_filter(r: RequestView, f: Option<Seq<char>>) -> bool {
    match f {
        Some(q) => matches_filter(r, q),
        None => true,
    }
}

/// 25 for each tag that holds `q`, ignoring case.
pub open spec fn tags_score(tags: Seq<Seq<char>>, q: Seq<char>) -> int
    decreases tags.len(),
{
    if tags.len() == 0 {
        0
    } else {
        tags_score(tags.drop_last(), q) + if has_ci(tags.last(), q) {
            25int
        } else {
            0int
        }
    }
}

/// How well a request matches a search, ignoring case: exact name 100, name
/// containing the query 50, URL 30, method 20, each tag 25, description 15.
pub open spec fn search_score(r: RequestView, q: Seq<char>) -> int {
    (if lower_of(r.name) == lower_of(q) {
        100int
    } else if has_ci(r.name, q) {
        50int
    } else {
        0int
    }) + (if has_ci(r.url, q) {
        30int
    } else {
        0int
    }) + (if has_ci(r.method, q) {
        20int
    } else {
        0int
    }) + tags_score(r.tags, q) + (match r.description {
        Some(d) => if has_ci(d, q) {
            15int
        } else {
            0int
        },
        None => 0int,
    })
}

/// A request named exactly like the query, ignoring case, scores higher than
/// one whose only match is in its URL.
pub proof fn lemma_exact_name_beats_url(a: RequestView, b: RequestView, q: Seq<char>)
    requires
        lower_of(a.name) == lower_of(q),
        !has_ci(b.name, q),
        has_ci(b.url, q),
        !has_ci(b.method, q),
        forall|i: int| 0 <= i < b.tags.len() ==> !has_ci(#[trigger] b.tags[i], q),
        b.description is None || !has_ci(b.description->Some_0, q),
    ensures
        search_score(a, q) > search_score(b, q),
{
    lemma_tags_score_bounds(a.tags, q);
    lemma_tags_score_zero(b.tags, q);
    assert(has_ci(b.name, q) || lower_of(b.name) != lower_of(q)) by {
        if lower_of(b.name) == lower_of(q) {
            lemma_contains_self(lower_of(b.name));
        }
    }
}

/// In the results of `search_requests` for `q`, a stored request named
/// exactly `q` (ignoring case) is listed, and listed before a stored request
/// that matches `q` only in its URL, which is listed too.
pub proof fn lemma_search_lists_exact_name_first(
    stored: Seq<RequestView>,
    results: Seq<RequestView>,
    q: Seq<char>,
    a: RequestView,
    b: RequestView,
)
    requires
        results.to_multiset() == stored.filter(|v: RequestView| search_score(v, q) > 0).to_multiset(),
        forall|i: int, j: int|
            0 <= i < j < results.len() ==> search_score(results[i], q) >= search_score(results[j], q),
        stored.contains(a),
        stored.contains(b),
        lower_of(a.name) == lower_of(q),
        !has_ci(b.name, q),
        has_ci(b.url, q),
        !has_ci(b.method, q),
        forall|i: int| 0 <= i < b.tags.len() ==> !has_ci(#[trigger] b.tags[i], q),
        b.description is None || !has_ci(b.description->Some_0, q),
    ensures
        results.contains(a),
        results.contains(b),
        forall|i: int, j: int|
            0 <= i < results.len() && 0 <= j < results.len() && results[i] == a && results[j] == b
                ==> i < j,
{
    lemma_exact_name_beats_url(a, b, q);
    lemma_tags_score_zero(b.tags, q);
    let keep = |v: RequestView| search_score(v, q) > 0;
    let f = stored.filter(keep);
    let ia = choose|k: int| 0 <= k < stored.len() && stored[k] == a;
    let ib = choose|k: int| 0 <= k < stored.len() && stored[k] == b;
    assert(keep(stored[ia]) && keep(stored[ib]));
    stored.lemma_filter_contains(keep, ia);
    stored.lemma_filter_contains(keep, ib);
    assert(f.contains(a) && f.contains(b));
    assert(f.to_multiset().count(a) > 0 && f.to_multiset().count(b) > 0);
    assert(results.to_multiset().count(a) > 0 && results.to_multiset().count(b) > 0);
    assert forall|i: int, j: int|
        0 <= i < results.len() && 0 <= j < results.len() && results[i] == a && results[j] == b
            implies i < j by {
        if j <= i {
            if j < i {
                assert(search_score(results[j], q) >= search_score(results[i], q));
            }
        }
    }
}

/// A text occurs in itself.
proof fn lemma_contains_self(s: Seq<char>)
    ensures
        contains(s, s),
{
    assert(s.subrange(0, s.len() as int) =~= s);
    assert(crate::text::occurs_at(s, s, 0));
}

/// Tag scores are never negative.
proof fn lemma_tags_score_bounds(tags: Seq<Seq<char>>, q: Seq<char>)
    ensures
        tags_score(tags, q) >= 0,
    decreases tags.len(),
{
    if tags.len() > 0 {
        lemma_tags_score_bounds(tags.drop_last(), q);
    }
}

/// Tags that never hold the query score nothing.
proof fn lemma_tags_score_zero(tags: Seq<Seq<char>>, q: Seq<char>)
    requires
        forall|i: int| 0 <= i < tags.len() ==> !has_ci(#[trigger] tags[i], q),
    ensures
        tags_score(tags, q) == 0,
    decreases tags.len(),
{
    if tags.len() > 0 {
        assert(!has_ci(tags[tags.len() - 1], q));
        lemma_tags_score_zero(tags.drop_last(), q);
    }
}

/// The characters of an optional text.
pub open spec fn opt_view_str(o: Option<&str>) -> Option<Seq<char>> {
    match o {
        Some(s) => Some(s@),
        None => None,
    }
}

/// The views of the values of a table of requests, in table order.
pub open spec fn saved_values(es: Seq<(String, SavedRequest)>) -> Seq<RequestView> {
    es.map_values(|e: (String, SavedRequest)| e.1@)
}

/// The views of the values of a table of collections, in table order.
pub open spec fn collection_values(es: Seq<(String, RequestCollection)>) -> Seq<CollectionView> {
    es.map_values(|e: (String, RequestCollection)| e.1@)
}

/// The views of keyed requests, in order.
pub open spec fn keyed_requests(s: Seq<(i128, SavedRequest)>) -> Seq<RequestView> {
    s.map_values(|p: (i128, SavedRequest)| p.1@)
}

/// Whether `field` holds `ql`, where `ql` is already lower case.
fn has_ci_exec(field: &str, query: &str, ql: &str) -> (r: bool)
    requires
        ql@ == lower_of(query@),
    ensures
        r == has_ci(field@, query@),
{
    let lf = to_lower(field);
    contains_exec(lf.as_str(), ql)
}

/// Whether a request matches a listing filter; see `matches_filter`.
fn matches_filter_exec(r: &SavedRequest, f: &str, fl: &str) -> (b: bool)
    requires
        fl@ == lower_of(f@),
    ensures
        b == matches_filter(r@, f@),
{
    if has_ci_exec(r.name.as_str(), f, fl) || has_ci_exec(r.url.as_str(), f, fl) || has_ci_exec(
        r.method.as_str(),
        f,
        fl,
    ) {
        return true;
    }
    let mut i: usize = 0;
    while i < r.tags.len()
        invariant
            fl@ == lower_of(f@),
            i <= r.tags@.len(),
            forall|j: int| 0 <= j < i ==> !has_ci(#[trigger] r@.tags[j], f@),
        decreases r.tags@.len() - i,
    {
        if has_ci_exec(r.tags[i].as_str(), f, fl) {
            assert(has_ci(r@.tags[i as int], f@));
            return true;
        }
        i = i + 1;
    }
    false
}

/// The search score of a request; see `search_score`.
fn score_exec(r: &SavedRequest, q: &str, ql: &str) -> (s: i128)
    requires
        ql@ == lower_of(q@),
    ensures
        s == search_score(r@, q@),
{
    let mut score: i128 = 0;
    let ln = to_lower(r.name.as_str());
    if str_eq(ln.as_str(), ql) {
        score = 100;
    } else if contains_exec(ln.as_str(), ql) {
        score = 50;
    }
    if has_ci_exec(r.url.as_str(), q, ql) {
        score = score + 30;
    }
    if has_ci_exec(r.method.as_str(), q, ql) {
        score = score + 20;
    }
    let ghost tv = r@.tags;
    let mut t: i128 = 0;
    let mut i: usize = 0;
    while i < r.tags.len()
        invariant
            ql@ == lower_of(q@),
            tv == r@.tags,
            i <= r.tags@.len(),
            t == tags_score(tv.take(i as int), q@),
            0 <= t <= 25 * i,
        decreases r.tags@.len() - i,
    {
        assert(tv.take(i + 1).drop_last() =~= tv.take(i as int));
        if has_ci_exec(r.tags[i].as_str(), q, ql) {
            t = t + 25;
        }
        i = i + 1;
    }
    assert(tv.take(i as int) =~= tv);
    score = score + t;
    match &r.description {
        Some(d) => {
            if has_ci_exec(d.as_str(), q, ql) {
                score = score + 15;
            }
        },
        None => {},
    }
    score
}

/// The requests of keyed items, in order.
fn strip_request_keys(v: Vec<(i128, SavedRequest)>) -> (r: Vec<SavedRequest>)
    requires
        forall|i: int| 0 <= i < v@.len() ==> (#[trigger] v@[i]).1.wf(),
    ensures
        crate::request::all_wf(r@),
        crate::request::requests_view(r@) == keyed_requests(v@),
{
    let mut rest = v;
    let mut out: Vec<SavedRequest> = Vec::new();
    let mut done: usize = 0;
    let total = rest.len();
    let ghost s = rest@;
    while rest.len() > 0
        invariant
            done + rest@.len() == total,
            total == s.len(),
            forall|i: int| 0 <= i < s.len() ==> (#[trigger] s[i]).1.wf(),
            rest@ == s.subrange(done as int, total as int),
            crate::request::all_wf(out@),
            crate::request::requests_view(out@) == keyed_requests(s.subrange(0, done as int)),
        decreases rest@.len(),
    {
        let (_, e) = rest.remove(0);
        let ghost before = out@;
        assert(e == s[done as int].1);
        out.push(e);
        done = done + 1;
        assert(rest@ =~= s.subrange(done as int, total as int));
        assert(crate::request::requests_view(out@) =~= keyed_requests(s.subrange(0, done as int))) by {
            assert(crate::request::requests_view(out@) =~= crate::request::requests_view(before).push(
                e@,
            ));
            assert(keyed_requests(s.subrange(0, done as int)) =~= keyed_requests(
                s.subrange(0, done - 1),
            ).push(e@));
        }
    }
    assert(s.subrange(0, done as int) =~= s);
    out
}

/// Sorts keyed requests by key, largest first, and drops the keys; the
/// requests keep their views and each carries the key that `key_of` gives.
fn rank_requests(v: Vec<(i128, SavedRequest)>, key_of: Ghost<spec_fn(RequestView) -> int>) -> (r: Vec<
    SavedRequest,
>)
    requires
        forall|i: int| 0 <= i < v@.len() ==> (#[trigger] v@[i]).1.wf(),
        forall|i: int| 0 <= i < v@.len() ==> (#[trigger] v@[i]).0 == key_of@(v@[i].1@),
    ensures
        crate::request::all_wf(r@),
        crate::request::requests_view(r@).to_multiset() == keyed_requests(v@).to_multiset(),
        forall|i: int, j: int|
            0 <= i < j < r@.len() ==> key_of@(r@[i]@) >= key_of@(r@[j]@),
{
    let ghost k0 = v@;
    let sorted = sort_by_key_desc(v);
    let ghost s = sorted@;
    proof {
        lemma_map_multiset(s, k0, |p: (i128, SavedRequest)| p.1@);
        assert forall|i: int| 0 <= i < s.len() implies (#[trigger] s[i]).1.wf() && s[i].0 == key_of@(
            s[i].1@,
        ) by {
            assert(s.to_multiset().count(s[i]) > 0);
            assert(k0.to_multiset().count(s[i]) > 0);
            assert(k0.contains(s[i]));
            let j = choose|j: int| 0 <= j < k0.len() && k0[j] == s[i];
            assert(k0[j].1.wf());
        }
    }
    let r = strip_request_keys(sorted);
    proof {
        assert(r@.len() == s.len()) by {
            assert(crate::request::requests_view(r@).len() == r@.len());
            assert(keyed_requests(s).len() == s.len());
        }
        assert forall|i: int, j: int| 0 <= i < j < r@.len() implies key_of@(r@[i]@) >= key_of@(
            r@[j]@,
        ) by {
            assert(crate::request::requests_view(r@)[i] == keyed_requests(s)[i]);
            assert(crate::request::requests_view(r@)[j] == keyed_requests(s)[j]);
            assert(s[i].0 >= s[j].0);
        }
    }
    r
}

/// The store's in-memory state; every change goes through its methods.
pub struct Storage {
    pub data: StorageData,
}

impl View for Storage {
    type V = DataView;

    open spec fn view(&self) -> DataView {
        self.data@
    }
}

/// `d` with its history replaced.
pub open spec fn with_history(d: DataView, h: Seq<HistoryView>) -> DataView {
    DataView { history: h, ..d }
}

impl Storage {
    /// The document is well formed.
    pub open spec fn wf(&self) -> bool {
        self.data.wf()
    }

    /// A store with an empty document.
    pub fn new() -> (r: Self)
        ensures
            r.wf(),
            r@ == (DataView {
                requests: Map::empty(),
                collections: Map::empty(),
                history: Seq::empty(),
                environments: Map::empty(),
                settings: Map::empty(),
            }),
    {
        Storage { data: StorageData::new() }
    }

    /// A store over a loaded document; history beyond the limit is dropped,
    /// oldest first.
    pub fn from_data(data: StorageData) -> (r: Self)
        requires
            data.tables_ok(),
        ensures
            r.wf(),
            r@ == with_history(data@, last_n(data@.history, HISTORY_LIMIT as nat)),
    {
        let mut d = data;
        d.history = keep_newest(d.history);
        Storage { data: d }
    }

    /// The document, copied.
    pub fn data(&self) -> (r: StorageData)
        requires
            self.wf(),
        ensures
            r.wf(),
            r@ == self@,
    {
        self.data.copy()
    }

    /// Stores a copy of `request` under `name`, with that name and a fresh
    /// `updated_at`; a request saved earlier under the name is replaced.
    pub fn save_request(&mut self, name: &str, request: &SavedRequest)
        requires
            old(self).wf(),
            request.wf(),
        ensures
            final(self).wf(),
            ({
                let saved = final(self)@.requests[name@];
                &&& saved == (RequestView { name: name@, updated_at: saved.updated_at, ..request@ })
                &&& saved.updated_at >= request@.updated_at
                &&& final(self)@ == (DataView {
                    requests: old(self)@.requests.insert(name@, saved),
                    ..old(self)@
                })
            }),
    {
        let mut r = request.copy();
        r.name = owned(name);
        r.touch();
        let ghost o = self.data.requests.entries@;
        self.data.requests.insert(owned(name), r);
        proof {
            let n = self.data.requests.entries@;
            assert forall|i: int| 0 <= i < n.len() implies (#[trigger] n[i]).1.dup_ok() by {
                if i < o.len() && n[i] == o[i] {
                    assert(o[i].1.dup_ok());
                }
            }
        }
    }

    /// The request saved under `name`.
    pub fn get_request(&self, name: &str) -> (r: Option<SavedRequest>)
        requires
            self.wf(),
        ensures
            r is Some <==> self@.requests.contains_key(name@),
            r is Some ==> r->Some_0.wf() && r->Some_0@ == self@.requests[name@],
    {
        match self.data.requests.position(name) {
            Some(i) => {
                proof {
                    crate::table::lemma_index_of(self.data.requests.entries@, i as int);
                    assert(self.data.requests.entries@[i as int].1.dup_ok());
                }
                Some(self.data.requests.entries[i].1.copy())
            },
            None => None,
        }
    }

    /// Deletes the request saved under `name`; returns whether there was one.
    pub fn delete_request(&mut self, name: &str) -> (r: bool)
        requires
            old(self).wf(),
        ensures
            final(self).wf(),
            r == old(self)@.requests.contains_key(name@),
            final(self)@ == (DataView {
                requests: old(self)@.requests.remove(name@),
                ..old(self)@
            }),
    {
        let ghost o = self.data.requests.entries@;
        let r = self.data.requests.remove(name);
        proof {
            lemma_removed_ok(o, self.data.requests.entries@);
        }
        r
    }

    /// All requests, or those whose name, URL, method or a tag holds the
    /// filter, ignoring case; newest-created first.
    #[verifier::loop_isolation(false)]
    pub fn list_requests(&self, filter: Option<&str>) -> (r: Vec<SavedRequest>)
        requires
            self.wf(),
        ensures
            crate::request::all_wf(r@),
            crate::request::requests_view(r@).to_multiset() == saved_values(
                self.data.requests.entries@,
            ).filter(|v: RequestView| passes_filter(v, opt_view_str(filter))).to_multiset(),
            forall|i: int, j: int|
                0 <= i < j < r@.len() ==> r@[i].created_at >= r@[j].created_at,
    {
        let fl = match filter {
            Some(f) => to_lower(f),
            None => String::new(),
        };
        let es = &self.data.requests.entries;
        let ghost fo = opt_view_str(filter);
        let ghost keep = |v: RequestView| passes_filter(v, fo);
        let mut items: Vec<(i128, SavedRequest)> = Vec::new();
        let mut i: usize = 0;
        while i < es.len()
            invariant
                self.wf(),
                es == &self.data.requests.entries,
                i <= es@.len(),
                filter is Some ==> fl@ == lower_of(filter->Some_0@),
                forall|j: int| 0 <= j < items@.len() ==> (#[trigger] items@[j]).1.wf(),
                forall|j: int|
                    0 <= j < items@.len() ==> (#[trigger] items@[j]).0 == items@[j].1@.created_at,
                keyed_requests(items@) == saved_values(es@.subrange(0, i as int)).filter(keep),
            decreases es@.len() - i,
        {
            proof {
                reveal(Seq::filter);
                assert(saved_values(es@.subrange(0, i + 1)).drop_last() =~= saved_values(
                    es@.subrange(0, i as int),
                ));
                assert(es@[i as int].1.dup_ok());
            }
            let item = &es[i].1;
            let pass = match filter {
                Some(f) => matches_filter_exec(item, f, fl.as_str()),
                None => true,
            };
            let ghost before = items@;
            if pass {
                items.push((item.created_at as i128, item.copy()));
                assert(keyed_requests(items@) =~= keyed_requests(before).push(item@));
            }
            proof {
                let sv = saved_values(es@.subrange(0, i + 1));
                assert(sv.last() == item@);
                assert(passes_filter(item@, fo) == pass);
                assert(keep(item@) == passes_filter(item@, fo));
                assert(sv.filter(keep) == if keep(sv.last()) {
                    sv.drop_last().filter(keep).push(sv.last())
                } else {
                    sv.drop_last().filter(keep)
                }) by {
                    reveal(Seq::filter);
                }
            }
            i = i + 1;
            assert(keyed_requests(items@) =~= saved_values(es@.subrange(0, i as int)).filter(keep));
        }
        proof {
            assert(es@.subrange(0, i as int) =~= es@);
            assert(keep =~= (|v: RequestView| passes_filter(v, opt_view_str(filter))));
        }
        rank_requests(items, Ghost(|v: RequestView| v.created_at as int))
    }

    /// The requests with a positive `search_score`, highest score first.
    #[verifier::loop_isolation(false)]
    pub fn search_requests(&self, query: &str) -> (r: Vec<SavedRequest>)
        requires
            self.wf(),
        ensures
            crate::request::all_wf(r@),
            crate::request::requests_view(r@).to_multiset() == saved_values(
                self.data.requests.entries@,
            ).filter(|v: RequestView| search_score(v, query@) > 0).to_multiset(),
            forall|i: int, j: int|
                0 <= i < j < r@.len() ==> search_score(r@[i]@, query@) >= search_score(
                    r@[j]@,
                    query@,
                ),
    {
        let ql = to_lower(query);
        let es = &self.data.requests.entries;
        let ghost keep = |v: RequestView| search_score(v, query@) > 0;
        let mut items: Vec<(i128, SavedRequest)> = Vec::new();
        let mut i: usize = 0;
        while i < es.len()
            invariant
                self.wf(),
                es == &self.data.requests.entries,
                i <= es@.len(),
                ql@ == lower_of(query@),
                forall|j: int| 0 <= j < items@.len() ==> (#[trigger] items@[j]).1.wf(),
                forall|j: int|
                    0 <= j < items@.len() ==> (#[trigger] items@[j]).0 == search_score(
                        items@[j].1@,
                        query@,
                    ),
                keyed_requests(items@) == saved_values(es@.subrange(0, i as int)).filter(keep),
            decreases es@.len() - i,
        {
            proof {
                reveal(Seq::filter);
                assert(saved_values(es@.subrange(0, i + 1)).drop_last() =~= saved_values(
                    es@.subrange(0, i as int),
                ));
                assert(es@[i as int].1.dup_ok());
            }
            let item = &es[i].1;
            let score = score_exec(item, query, ql.as_str());
            let ghost before = items@;
            if score > 0 {
                items.push((score, item.copy()));
                assert(keyed_requests(items@) =~= keyed_requests(before).push(item@));
            }
            proof {
                let sv = saved_values(es@.subrange(0, i + 1));
                assert(sv.last() == item@);
                assert(keep(item@) == (score > 0));
                assert(sv.filter(keep) == if keep(sv.last()) {
                    sv.drop_last().filter(keep).push(sv.last())
                } else {
                    sv.drop_last().filter(keep)
                }) by {
                    reveal(Seq::filter);
                }
            }
            i = i + 1;
            assert(keyed_requests(items@) =~= saved_values(es@.subrange(0, i as int)).filter(keep));
        }
        proof {
            assert(es@.subrange(0, i as int) =~= es@);
            assert(keep =~= (|v: RequestView| search_score(v, query@) > 0));
        }
        rank_requests(items, Ghost(|v: RequestView| search_score(v, query@)))
    }

    /// Creates an empty collection under `name`, replacing an earlier one.
    pub fn create_collection(&mut self, name: &str, description: Option<String>)
        requires
            old(self).wf(),
        ensures
            final(self).wf(),
            ({
                let c = final(self)@.collections[name@];
                &&& c.name == name@
                &&& c.description == opt_view(description)
                &&& c.requests.len() == 0
                &&& c.updated_at == c.created_at
                &&& final(self)@ == (DataView {
                    collections: old(self)@.collections.insert(name@, c),
                    ..old(self)@
                })
            }),
    {
        let mut c = RequestCollection::new(owned(name));
        c.description = description;
        let ghost o = self.data.collections.entries@;
        self.data.collections.insert(owned(name), c);
        proof {
            let n = self.data.collections.entries@;
            assert forall|i: int| 0 <= i < n.len() implies (#[trigger] n[i]).1.dup_ok() by {
                if i < o.len() && n[i] == o[i] {
                    assert(o[i].1.dup_ok());
                }
            }
        }
    }

    /// Appends `request` to the collection under `collection_name`; fails with
    /// `NotFound` when there is none.
    pub fn add_request_to_collection(&mut self, collection_name: &str, request: SavedRequest) -> (r:
        Result<(), TerziError>)
        requires
            old(self).wf(),
            request.wf(),
        ensures
            final(self).wf(),
            r is Ok <==> old(self)@.collections.contains_key(collection_name@),
            r is Err ==> (r matches Err(TerziError::NotFound(_))),
            r is Err ==> final(self)@ == old(self)@,
            r is Ok ==> {
                let before = old(self)@.collections[collection_name@];
                let after = final(self)@.collections[collection_name@];
                &&& after == (CollectionView {
                    requests: before.requests.push(request@),
                    updated_at: after.updated_at,
                    ..before
                })
                &&& after.updated_at >= before.updated_at
                &&& final(self)@ == (DataView {
                    collections: old(self)@.collections.insert(collection_name@, after),
                    ..old(self)@
                })
            },
    {
        match self.data.collections.position(collection_name) {
            Some(i) => {
                proof {
                    crate::table::lemma_index_of(self.data.collections.entries@, i as int);
                    assert(self.data.collections.entries@[i as int].1.dup_ok());
                }
                let mut c = self.data.collections.entries[i].1.copy();
                c.add_request(request);
                let ghost o = self.data.collections.entries@;
                self.data.collections.insert(owned(collection_name), c);
                proof {
                    let n = self.data.collections.entries@;
                    assert forall|j: int| 0 <= j < n.len() implies (#[trigger] n[j]).1.dup_ok() by {
                        if j < o.len() && n[j] == o[j] {
                            assert(o[j].1.dup_ok());
                        }
                    }
                }
                Ok(())
            },
            None => {
                let mut msg = owned("Collection not found: ");
                msg.append(collection_name);
                Err(TerziError::NotFound(msg))
            },
        }
    }

    /// The collection saved under `name`.
    pub fn get_collection(&self, name: &str) -> (r: Option<RequestCollection>)
        requires
            self.wf(),
        ensures
            r is Some <==> self@.collections.contains_key(name@),
            r is Some ==> r->Some_0.wf() && r->Some_0@ == self@.collections[name@],
    {
        match self.data.collections.position(name) {
            Some(i) => {
                proof {
                    crate::table::lemma_index_of(self.data.collections.entries@, i as int);
                    assert(self.data.collections.entries@[i as int].1.dup_ok());
                }
                Some(self.data.collections.entries[i].1.copy())
            },
            None => None,
        }
    }

    /// Deletes the collection saved under `name`; returns whether there was one.
    pub fn delete_collection(&mut self, name: &str) -> (r: bool)
        requires
            old(self).wf(),
        ensures
            final(self).wf(),
            r == old(self)@.collections.contains_key(name@),
            final(self)@ == (DataView {
                collections: old(self)@.collections.remove(name@),
                ..old(self)@
            }),
    {
        let ghost o = self.data.collections.entries@;
        let r = self.data.collections.remove(name);
        proof {
            lemma_removed_ok(o, self.data.collections.entries@);
        }
        r
    }

    /// All collections, ordered by name.
    pub fn list_collections(&self) -> (r: Vec<RequestCollection>)
        requires
            self.wf(),
        ensures
            r@.map_values(|c: RequestCollection| c@).to_multiset() == collection_values(
                self.data.collections.entries@,
            ).to_multiset(),
            forall|i: int| 0 <= i < r@.len() - 1 ==> lex_le((#[trigger] r@[i]).name@, r@[i + 1].name@),
    {
        let es = &self.data.collections.entries;
        let mut items: Vec<(String, RequestCollection)> = Vec::new();
        let mut i: usize = 0;
        while i < es.len()
            invariant
                self.wf(),
                es == &self.data.collections.entries,
                i <= es@.len(),
                items@.len() == i,
                forall|j: int|
                    0 <= j < i ==> (#[trigger] items@[j]).1@ == es@[j].1@ && items@[j].0@
                        == es@[j].1.name@,
            decreases es@.len() - i,
        {
            assert(es@[i as int].1.dup_ok());
            let c = es[i].1.copy();
            let key = c.name.clone();
            items.push((key, c));
            i = i + 1;
        }
        let ghost k0 = items@;
        let sorted = sort_by_name(items);
        let ghost s = sorted@;
        let (_, r) = crate::sorting::split_pairs(sorted);
        proof {
            let f = |p: (String, RequestCollection)| p.1@;
            lemma_map_multiset(s, k0, f);
            assert(k0.map_values(f) =~= collection_values(es@));
            assert(r@.map_values(|c: RequestCollection| c@) =~= s.map_values(f));
            assert forall|i: int| 0 <= i < s.len() implies (#[trigger] s[i]).0@ == s[i].1.name@ by {
                assert(s.to_multiset().count(s[i]) > 0);
                assert(k0.to_multiset().count(s[i]) > 0);
                assert(k0.contains(s[i]));
            }
            assert forall|i: int| 0 <= i < r@.len() - 1 implies lex_le(
                (#[trigger] r@[i]).name@,
                r@[i + 1].name@,
            ) by {
                assert(s[i].0@ == s[i].1.name@);
                assert(s[i + 1].0@ == s[i + 1].1.name@);
            }
        }
        r
    }

    /// The names of all environments, in dictionary order.
    pub fn list_environments(&self) -> (r: Vec<String>)
        requires
            self.wf(),
        ensures
            r@.map_values(|n: String| n@).to_multiset() == self.data.environments.entries@.map_values(
                |e: (String, Table<String>)| e.0@,
            ).to_multiset(),
            forall|i: int| 0 <= i < r@.len() - 1 ==> lex_le((#[trigger] r@[i])@, r@[i + 1]@),
    {
        let es = &self.data.environments.entries;
        let mut items: Vec<(String, ())> = Vec::new();
        let mut i: usize = 0;
        while i < es.len()
            invariant
                es == &self.data.environments.entries,
                i <= es@.len(),
                items@.len() == i,
                forall|j: int| 0 <= j < i ==> (#[trigger] items@[j]).0@ == es@[j].0@,
            decreases es@.len() - i,
        {
            items.push((es[i].0.clone(), ()));
            i = i + 1;
        }
        let ghost k0 = items@;
        let sorted = sort_by_name(items);
        let ghost s = sorted@;
        let (r, _) = crate::sorting::split_pairs(sorted);
        proof {
            let f = |p: (String, ())| p.0@;
            lemma_map_multiset(s, k0, f);
            assert(k0.map_values(f) =~= es@.map_values(|e: (String, Table<String>)| e.0@));
            assert(r@.map_values(|n: String| n@) =~= s.map_values(f));
            assert forall|i: int| 0 <= i < r@.len() - 1 implies lex_le(
                (#[trigger] r@[i])@,
                r@[i + 1]@,
            ) by {
                assert(sorted_by_name(s));
                assert(lex_le(s[i].0@, s[i + 1].0@));
            }
        }
        r
    }

    /// The newest `limit` history entries, newest first; equal times keep
    /// their recorded order.
    pub fn get_history(&self, limit: usize) -> (r: Vec<HistoryEntry>)
        requires
            self.wf(),
        ensures
            exists|all: Seq<HistoryView>|
                {
                    &&& all.to_multiset() == self@.history.to_multiset()
                    &&& forall|i: int, j: int|
                        0 <= i < j < all.len() ==> all[i].timestamp >= all[j].timestamp
                    &&& history_view(r@) == all.take(
                        if all.len() <= limit {
                            all.len() as int
                        } else {
                            limit as int
                        },
                    )
                },
    {
        let h = &self.data.history;
        let mut items: Vec<(i128, HistoryEntry)> = Vec::new();
        let mut i: usize = 0;
        while i < h.len()
            invariant
                h == &self.data.history,
                i <= h@.len(),
                items@.len() == i,
                forall|j: int|
                    0 <= j < i ==> (#[trigger] items@[j]).1@ == h@[j]@ && items@[j].0
                        == items@[j].1.timestamp,
            decreases h@.len() - i,
        {
            let e = h[i].duplicate();
            items.push((e.timestamp as i128, e));
            i = i + 1;
        }
        let ghost k0 = items@;
        let sorted = sort_by_key_desc(items);
        let ghost s = sorted@;
        let (_, mut r) = crate::sorting::split_pairs(sorted);
        let ghost full = history_view(r@);
        proof {
            let f = |p: (i128, HistoryEntry)| p.1@;
            lemma_map_multiset(s, k0, f);
            assert(k0.map_values(f) =~= history_view(h@));
            assert(full =~= s.map_values(f));
            assert forall|i: int| 0 <= i < s.len() implies (#[trigger] s[i]).0 == s[i].1.timestamp by {
                assert(s.to_multiset().count(s[i]) > 0);
                assert(k0.to_multiset().count(s[i]) > 0);
                assert(k0.contains(s[i]));
            }
            assert forall|i: int, j: int| 0 <= i < j < full.len() implies full[i].timestamp
                >= full[j].timestamp by {
                assert(s[i].0 >= s[j].0);
            }
        }
        if r.len() > limit {
            r.truncate(limit);
        }
        assert(history_view(r@) =~= full.take(
            if full.len() <= limit {
                full.len() as int
            } else {
                limit as int
            },
        ));
        r
    }

    /// Appends `entry` to the history, evicting the oldest entry when the
    /// limit is passed.
    pub fn record_history(&mut self, entry: HistoryEntry)
        requires
            old(self).wf(),
        ensures
            final(self).wf(),
            final(self)@ == with_history(old(self)@, push_capped(old(self)@.history, entry@)),
    {
        let ghost ev = entry@;
        let ghost h0 = self.data.history@;
        self.data.history.push(entry);
        if self.data.history.len() > HISTORY_LIMIT {
            self.data.history.remove(0);
            assert(history_view(self.data.history@) =~= history_view(h0).push(ev).skip(1));
        } else {
            assert(history_view(self.data.history@) =~= history_view(h0).push(ev));
        }
    }

    /// Records a received response for `request`.
    pub fn add_to_history(&mut self, request: &SavedRequest, response: &Response)
        requires
            old(self).wf(),
        ensures
            final(self).wf(),
            exists|e: HistoryView|
                final(self)@ == with_history(old(self)@, push_capped(old(self)@.history, e))
                    && e.method == request@.method && e.url == request@.url && e.response_status
                    == Some(response.status) && e.duration_ms == Some(response.duration_ms) && (e.request_size is Some
                    <==> request.body is Some) && e.response_size == Some(response.size) && e.error_message is None,
    {
        let entry = HistoryEntry {
            id: new_id(),
            timestamp: now_millis(),
            method: request.method.clone(),
            url: request.url.clone(),
            response_status: Some(response.status),
            duration_ms: Some(response.duration_ms),
            request_size: body_size(&request.body),
            response_size: Some(response.size),
            error_message: None,
        };
        let ghost ev = entry@;
        self.record_history(entry);
        assert(final(self)@ == with_history(old(self)@, push_capped(old(self)@.history, ev)));
    }

    /// Records a failed execution of `request`.
    pub fn add_error_to_history(&mut self, request: &SavedRequest, error: &str)
        requires
            old(self).wf(),
        ensures
            final(self).wf(),
            exists|e: HistoryView|
                final(self)@ == with_history(old(self)@, push_capped(old(self)@.history, e))
                    && e.method == request@.method && e.url == request@.url && e.response_status
                    is None && e.duration_ms is None && (e.request_size is Some <==> request.body
                    is Some) && e.response_size is None && e.error_message == Some(error@),
    {
        let entry = HistoryEntry {
            id: new_id(),
            timestamp: now_millis(),
            method: request.method.clone(),
            url: request.url.clone(),
            response_status: None,
            duration_ms: None,
            request_size: body_size(&request.body),
            response_size: None,
            error_message: Some(owned(error)),
        };
        let ghost ev = entry@;
        self.record_history(entry);
        assert(final(self)@ == with_history(old(self)@, push_capped(old(self)@.history, ev)));
    }

    /// Empties the history.
    pub fn clear_history(&mut self)
        requires
            old(self).wf(),
        ensures
            final(self).wf(),
            final(self)@ == with_history(old(self)@, Seq::empty()),
    {
        self.data.history = Vec::new();
        assert(history_view(self.data.history@) =~= Seq::<HistoryView>::empty());
    }

    /// Counts and duration figures over the whole history; see `tally`.
    pub fn get_history_stats(&self) -> (r: HistoryStats)
        requires
            self.wf(),
        ensures
            r == stats_of(tally(self@.history)),
    {
        let h = &self.data.history;
        let ghost hv = history_view(h@);
        let mut total: usize = 0;
        let mut success: usize = 0;
        let mut client: usize = 0;
        let mut server: usize = 0;
        let mut failed: usize = 0;
        let mut timed: usize = 0;
        let mut sum: u128 = 0;
        let mut min: Option<u64> = None;
        let mut max: Option<u64> = None;
        let mut i: usize = 0;
        while i < h.len()
            invariant
                hv == history_view(h@),
                h@.len() <= HISTORY_LIMIT,
                i <= h@.len(),
                ({
                    let t = tally(hv.take(i as int));
                    &&& total == t.total
                    &&& success == t.success
                    &&& client == t.client
                    &&& server == t.server
                    &&& failed == t.failed
                    &&& timed == t.timed
                    &&& sum == t.sum
                    &&& min == t.min
                    &&& max == t.max
                }),
            decreases h@.len() - i,
        {
            proof {
                assert(hv.take(i + 1).drop_last() =~= hv.take(i as int));
                lemma_tally_bounds(hv.take(i as int));
                assert(hv.take(i + 1).last() == h@[i as int]@);
            }
            let e = &h[i];
            total = total + 1;
            match e.response_status {
                Some(st) => {
                    if st >= 200 && st <= 299 {
                        success = success + 1;
                    } else if st >= 400 && st <= 499 {
                        client = client + 1;
                    } else if st >= 500 && st <= 599 {
                        server = server + 1;
                    }
                },
                None => {
                    failed = failed + 1;
                },
            }
            match e.duration_ms {
                Some(d) => {
                    timed = timed + 1;
                    proof {
                        assert(sum <= 1000 * 18446744073709551615) by (nonlinear_arith)
                            requires
                                sum <= tally(hv.take(i as int)).timed * 18446744073709551615,
                                tally(hv.take(i as int)).timed <= 1000,
                        ;
                    }
                    sum = sum + d as u128;
                    min = match min {
                        Some(m) => Some(if d < m { d } else { m }),
                        None => Some(d),
                    };
                    max = match max {
                        Some(m) => Some(if d > m { d } else { m }),
                        None => Some(d),
                    };
                },
                None => {},
            }
            i = i + 1;
        }
        proof {
            assert(hv.take(i as int) =~= hv);
            lemma_tally_bounds(hv);
        }
        let average = if timed > 0 {
            proof {
                let t = tally(hv);
                let m = t.max->Some_0 as nat;
                assert(t.sum / t.timed <= m) by (nonlinear_arith)
                    requires
                        t.sum <= t.timed * m,
                        t.timed > 0,
                ;
            }
            Some((sum / (timed as u128)) as u64)
        } else {
            None
        };
        HistoryStats {
            total_requests: total,
            successful_requests: success,
            client_errors: client,
            server_errors: server,
            failed_requests: failed,
            total_duration_ms: sum,
            average_duration_ms: average,
            min_duration_ms: min,
            max_duration_ms: max,
        }
    }

    /// Stores an environment overlay under `name`, replacing an earlier one.
    pub fn save_environment(&mut self, name: &str, variables: Table<String>)
        requires
            old(self).wf(),
            variables.wf(),
        ensures
            final(self).wf(),
            final(self)@ == (DataView {
                environments: old(self)@.environments.insert(name@, variables@),
                ..old(self)@
            }),
    {
        let ghost o = self.data.environments.entries@;
        self.data.environments.insert(owned(name), variables);
        proof {
            let n = self.data.environments.entries@;
            assert forall|i: int| 0 <= i < n.len() implies (#[trigger] n[i]).1.dup_ok() by {
                if i < o.len() && n[i] == o[i] {
                    assert(o[i].1.dup_ok());
                }
            }
        }
    }

    /// The environment overlay saved under `name`.
    pub fn get_environment(&self, name: &str) -> (r: Option<Table<String>>)
        requires
            self.wf(),
        ensures
            r is Some <==> self@.environments.contains_key(name@),
            r is Some ==> r->Some_0.wf() && r->Some_0@ == self@.environments[name@],
    {
        match self.data.environments.position(name) {
            Some(i) => {
                proof {
                    crate::table::lemma_index_of(self.data.environments.entries@, i as int);
                    assert(self.data.environments.entries@[i as int].1.dup_ok());
                }
                Some(self.data.environments.entries[i].1.duplicate())
            },
            None => None,
        }
    }

    /// Deletes the environment saved under `name`; returns whether there was one.
    pub fn delete_environment(&mut self, name: &str) -> (r: bool)
        requires
            old(self).wf(),
        ensures
            final(self).wf(),
            r == old(self)@.environments.contains_key(name@),
            final(self)@ == (DataView {
                environments: old(self)@.environments.remove(name@),
                ..old(self)@
            }),
    {
        let ghost o = self.data.environments.entries@;
        let r = self.data.environments.remove(name);
        proof {
            lemma_removed_ok(o, self.data.environments.entries@);
        }
        r
    }

    /// Sets a setting, replacing an earlier value.
    pub fn set_setting(&mut self, key: &str, value: &str)
        requires
            old(self).wf(),
        ensures
            final(self).wf(),
            final(self)@ == (DataView {
                settings: old(self)@.settings.insert(key@, value@),
                ..old(self)@
            }),
    {
        self.data.settings.insert(owned(key), owned(value));
    }

    /// The value of a setting.
    pub fn get_setting(&self, key: &str) -> (r: Option<String>)
        requires
            self.wf(),
        ensures
            r is Some <==> self@.settings.contains_key(key@),
            r is Some ==> r->Some_0@ == self@.settings[key@],
    {
        match self.data.settings.get(key) {
            Some(v) => Some(v.clone()),
            None => None,
        }
    }

    /// All settings.
    pub fn list_settings(&self) -> (r: Table<String>)
        requires
            self.wf(),
        ensures
            r.wf(),
            r@ == self@.settings,
    {
        self.data.settings.duplicate()
    }

    /// The document as it would be exported: everything, with the history
    /// emptied unless `include_history`.
    pub fn export_data(&self, include_history: bool) -> (r: StorageData)
        requires
            self.wf(),
        ensures
            r.wf(),
            r@ == if include_history {
                self@
            } else {
                with_history(self@, Seq::empty())
            },
    {
        let mut d = self.data.copy();
        if !include_history {
            d.history = Vec::new();
            assert(history_view(d.history@) =~= Seq::<HistoryView>::empty());
        }
        d
    }

    /// Imports a document. Merging unions the tables (imported entries win on
    /// equal names) and concatenates the histories, ordered by time, keeping
    /// the newest within the limit; otherwise the import replaces everything,
    /// its history also kept within the limit.
    pub fn import_data(&mut self, data: StorageData, merge: bool)
        requires
            old(self).wf(),
            data.tables_ok(),
        ensures
            final(self).wf(),
            !merge ==> final(self)@ == with_history(data@, last_n(data@.history, HISTORY_LIMIT as nat)),
            merge ==> {
                &&& final(self)@.requests == old(self)@.requests.union_prefer_right(data@.requests)
                &&& final(self)@.collections == old(self)@.collections.union_prefer_right(data@.collections)
                &&& final(self)@.environments == old(self)@.environments.union_prefer_right(data@.environments)
                &&& final(self)@.settings == old(self)@.settings.union_prefer_right(data@.settings)
                &&& exists|all: Seq<HistoryView>|
                    {
                        &&& all.to_multiset() == (old(self)@.history + data@.history).to_multiset()
                        &&& forall|i: int, j: int|
                            0 <= i < j < all.len() ==> all[i].timestamp <= all[j].timestamp
                        &&& final(self)@.history == last_n(all, HISTORY_LIMIT as nat)
                    }
            },
    {
        if !merge {
            let mut d = data;
            d.history = keep_newest(d.history);
            self.data = d;
        } else {
            let StorageData { requests, collections, history, environments, settings } = data;
            absorb_deep(&mut self.data.requests, requests);
            absorb_deep(&mut self.data.collections, collections);
            absorb_deep(&mut self.data.environments, environments);
            absorb_deep(&mut self.data.settings, settings);
            let mut mine: Vec<HistoryEntry> = Vec::new();
            std::mem::swap(&mut mine, &mut self.data.history);
            let ghost hv_old = history_view(mine@);
            let ghost hv_new = history_view(history@);
            let merged = merge_by_time(mine, history);
            let ghost m = merged@;
            self.data.history = keep_newest(merged);
            proof {
                let h = self.data.history@;
                assert(h == last_n(m, HISTORY_LIMIT as nat));
                assert forall|i: int, j: int|
                    0 <= i < j < history_view(h).len() implies history_view(h)[i].timestamp
                    <= history_view(h)[j].timestamp by {
                    if m.len() > HISTORY_LIMIT {
                        let off = m.len() - HISTORY_LIMIT;
                        assert(h[i] == m[i + off] && h[j] == m[j + off]);
                    }
                }
                let all = history_view(m);
                assert(all.to_multiset() == (hv_old + hv_new).to_multiset());
                assert forall|i: int, j: int| 0 <= i < j < all.len() implies all[i].timestamp
                    <= all[j].timestamp by {
                    assert(m[i].timestamp <= m[j].timestamp);
                }
                assert(history_view(h) == last_n(all, HISTORY_LIMIT as nat));
            }
        }
    }
}

/// Moves every entry of `other` into `t`; both stay copyable.
fn absorb_deep<V: Duplicate>(t: &mut Table<V>, other: Table<V>)
    requires
        old(t).deep_ok(),
        other.deep_ok(),
    ensures
        final(t).deep_ok(),
        final(t)@ == old(t)@.union_prefer_right(other@),
{
    let ghost o1 = t.entries@;
    let ghost o2 = other.entries@;
    t.absorb(other);
    proof {
        let n = t.entries@;
        assert forall|i: int| 0 <= i < n.len() implies (#[trigger] n[i]).1.dup_ok() by {
            if o1.contains(n[i]) {
                let j = choose|j: int| 0 <= j < o1.len() && o1[j] == n[i];
                assert(o1[j].1.dup_ok());
            } else {
                let j = choose|j: int| 0 <= j < o2.len() && o2[j] == n[i];
                assert(o2[j].1.dup_ok());
            }
        }
    }
}

/// After a removal every entry left is one that was there, so copyability holds.
proof fn lemma_removed_ok<V: Duplicate>(o: Seq<(String, V)>, n: Seq<(String, V)>)
    requires
        forall|i: int| 0 <= i < o.len() ==> (#[trigger] o[i]).1.dup_ok(),
        forall|i: int| 0 <= i < n.len() ==> o.contains(#[trigger] n[i]),
    ensures
        forall|i: int| 0 <= i < n.len() ==> (#[trigger] n[i]).1.dup_ok(),
{
    assert forall|i: int| 0 <= i < n.len() implies (#[trigger] n[i]).1.dup_ok() by {
        assert(o.contains(n[i]));
        let j = choose|j: int| 0 <= j < o.len() && o[j] == n[i];
        assert(o[j].1.dup_ok());
    }
}

/// The newest `HISTORY_LIMIT` entries of `h`, in order.
fn keep_newest(h: Vec<HistoryEntry>) -> (r: Vec<HistoryEntry>)
    ensures
        r@.len() <= HISTORY_LIMIT,
        r@ == last_n(h@, HISTORY_LIMIT as nat),
        history_view(r@) == last_n(history_view(h@), HISTORY_LIMIT as nat),
{
    let mut v = h;
    if v.len() > HISTORY_LIMIT {
        let at = v.len() - HISTORY_LIMIT;
        let tail = v.split_off(at);
        assert(history_view(tail@) =~= last_n(history_view(h@), HISTORY_LIMIT as nat));
        tail
    } else {
        v
    }
}

/// The key that orders history entries oldest first under a descending sort.
pub open spec fn time_key(e: HistoryEntry) -> i128 {
    (-(e.timestamp as int)) as i128
}

/// Every item is keyed by `time_key` of its entry.
pub open spec fn keyed_by_time(s: Seq<(i128, HistoryEntry)>) -> bool {
    forall|i: int| 0 <= i < s.len() ==> (#[trigger] s[i]).0 == time_key(s[i].1)
}

/// The views of the entries of keyed items, in order.
pub open spec fn keyed_view(s: Seq<(i128, HistoryEntry)>) -> Seq<HistoryView> {
    s.map_values(|p: (i128, HistoryEntry)| p.1@)
}

/// Moves the entries of `h` to the end of `out`, each keyed by `time_key`.
fn push_keyed(out: &mut Vec<(i128, HistoryEntry)>, h: Vec<HistoryEntry>)
    requires
        keyed_by_time(old(out)@),
    ensures
        keyed_by_time(final(out)@),
        keyed_view(final(out)@) == keyed_view(old(out)@) + history_view(h@),
{
    let ghost o = out@;
    let mut rest = h;
    let mut done: usize = 0;
    let total = rest.len();
    while rest.len() > 0
        invariant
            done + rest@.len() == total,
            total == h@.len(),
            rest@ == h@.subrange(done as int, total as int),
            keyed_by_time(out@),
            keyed_view(out@) == keyed_view(o) + history_view(h@.subrange(0, done as int)),
        decreases rest@.len(),
    {
        let e = rest.remove(0);
        let k: i128 = -(e.timestamp as i128);
        let ghost before = out@;
        out.push((k, e));
        done = done + 1;
        assert(rest@ =~= h@.subrange(done as int, total as int));
        assert(keyed_view(out@) =~= keyed_view(o) + history_view(h@.subrange(0, done as int))) by {
            assert(keyed_view(out@) =~= keyed_view(before).push(e@));
            assert(history_view(h@.subrange(0, done as int)) =~= history_view(
                h@.subrange(0, done - 1),
            ).push(e@));
        }
    }
    assert(h@.subrange(0, done as int) =~= h@);
}

/// The entries of both lists, oldest first; equal times keep their order.
fn merge_by_time(h1: Vec<HistoryEntry>, h2: Vec<HistoryEntry>) -> (r: Vec<HistoryEntry>)
    ensures
        history_view(r@).to_multiset() == (history_view(h1@) + history_view(h2@)).to_multiset(),
        forall|i: int, j: int| 0 <= i < j < r@.len() ==> r@[i].timestamp <= r@[j].timestamp,
{
    let mut keyed: Vec<(i128, HistoryEntry)> = Vec::new();
    assert(keyed_view(keyed@) =~= Seq::<HistoryView>::empty());
    push_keyed(&mut keyed, h1);
    push_keyed(&mut keyed, h2);
    let ghost k0 = keyed@;
    let sorted = crate::sorting::sort_by_key_desc(keyed);
    let ghost s = sorted@;
    proof {
        crate::sorting::lemma_map_multiset(s, k0, |p: (i128, HistoryEntry)| p.1@);
        assert forall|i: int| 0 <= i < s.len() implies (#[trigger] s[i]).0 == time_key(s[i].1) by {
            assert(s.to_multiset().count(s[i]) > 0);
            assert(k0.to_multiset().count(s[i]) > 0);
            assert(k0.contains(s[i]));
        }
    }
    let mut out: Vec<HistoryEntry> = Vec::new();
    let mut rest = sorted;
    let mut done: usize = 0;
    let total = rest.len();
    while rest.len() > 0
        invariant
            done + rest@.len() == total,
            total == s.len(),
            rest@ == s.subrange(done as int, total as int),
            history_view(out@) == keyed_view(s.subrange(0, done as int)),
            out@.len() == done,
            forall|i: int| 0 <= i < done ==> (#[trigger] out@[i]).timestamp == s[i].1.timestamp,
        decreases rest@.len(),
    {
        let (_, e) = rest.remove(0);
        let ghost before = out@;
        out.push(e);
        done = done + 1;
        assert(rest@ =~= s.subrange(done as int, total as int));
        assert(history_view(out@) =~= keyed_view(s.subrange(0, done as int))) by {
            assert(history_view(out@) =~= history_view(before).push(e@));
            assert(keyed_view(s.subrange(0, done as int)) =~= keyed_view(s.subrange(0, done - 1)).push(
                e@,
            ));
        }
    }
    proof {
        assert(s.subrange(0, done as int) =~= s);
        assert forall|i: int, j: int| 0 <= i < j < out@.len() implies out@[i].timestamp
            <= out@[j].timestamp by {
            assert(s[i].0 >= s[j].0);
            assert(s[i].0 == time_key(s[i].1));
            assert(s[j].0 == time_key(s[j].1));
        }
    }
    out
}

/// The request body's length in bytes, if there is a body.
fn body_size(body: &Option<String>) -> (r: Option<usize>)
    ensures
        r is Some <==> body is Some,
{
    match body {
        Some(b) => Some(b.as_str().len()),
        None => None,
    }
}

/// Filtering by a predicate that holds everywhere keeps everything.
proof fn lemma_filter_all<A>(s: Seq<A>, p: spec_fn(A) -> bool)
    requires
        forall|i: int| 0 <= i < s.len() ==> p(s[i]),
    ensures
        s.filter(p) == s,
    decreases s.len(),
{
    reveal(Seq::filter);
    if s.len() > 0 {
        lemma_filter_all(s.drop_last(), p);
        assert(s.drop_last().push(s.last()) =~= s);
    } else {
        assert(s.filter(p) =~= s);
    }
}

} // verus!
