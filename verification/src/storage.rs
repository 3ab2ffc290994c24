//! The rules of the run and log store: which runs and log lines come back, in what order,
//! how stored records are keyed, and when a cached response is stale.
use vstd::prelude::*;
use std::collections::hash_map::DefaultHasher;
use std::hash::Hasher;
use vstd::std_specs::hash::DefaultHasherAdditionalSpecFns;
use vstd::string::StringSliceAdditionalSpecFns;
use crate::config::{lemma_distinct_lookup, lookup_entries, StringMap};
use vstd::multiset::Multiset;
use crate::engine::WorkflowRun;
use crate::sort::{insert_by, is_sorted_by, lemma_sorted_by_perm, lemma_sorted_by_sorted, lemma_insert_at, sorted_by, total_preorder};
use crate::text::{chars_of, decimal, format_i64, format_u64, lemma_lex_antisymmetric, lemma_lex_total, lemma_lex_transitive, lex_le, signed_decimal, text_le};
use crate::tui::LogEntry;

verus! {

/// Runs ordered most recent first.
pub open spec fn recent_first() -> spec_fn(WorkflowRun, WorkflowRun) -> bool {
    |a: WorkflowRun, b: WorkflowRun| a.started_at >= b.started_at
}

/// Log lines ordered oldest first.
pub open spec fn oldest_first() -> spec_fn(LogEntry, LogEntry) -> bool {
    |a: LogEntry, b: LogEntry| a.timestamp <= b.timestamp
}

/// The first `limit` elements of `s`, or all of them without a limit.
pub open spec fn limited<T>(s: Seq<T>, limit: Option<usize>) -> Seq<T> {
    match limit {
        Some(n) => if n < s.len() {
            s.take(n as int)
        } else {
            s
        },
        None => s,
    }
}

/// Stored log lines come oldest first, at most `limit` of them, each one of the stored lines:
/// every line listed is stored, and without a limit (or under it) every stored line is listed.
pub proof fn lemma_logs_listing(logs: Seq<LogEntry>, limit: Option<usize>)
    ensures
        ({
            let r = limited(sorted_by(logs, oldest_first()), limit);
            &&& forall|i: int, j: int| 0 <= i < j < r.len() ==> #[trigger] r[i].timestamp <= #[trigger] r[j].timestamp
            &&& r.len() == match limit {
                Some(n) => if (n as int) < logs.len() { n as int } else { logs.len() as int },
                None => logs.len() as int,
            }
            &&& forall|i: int| 0 <= i < r.len() ==> logs.contains(#[trigger] r[i])
            &&& r.len() == logs.len() ==> r.to_multiset() == logs.to_multiset()
        }),
{
    let s = sorted_by(logs, oldest_first());
    lemma_sorted_by_sorted(logs, oldest_first());
    lemma_sorted_by_perm(logs, oldest_first());
    let r = limited(s, limit);
    assert forall|i: int, j: int| 0 <= i < j < r.len() implies #[trigger] r[i].timestamp <= #[trigger] r[j].timestamp by {
        assert(r[i] == s[i] && r[j] == s[j]);
        assert(oldest_first()(s[i], s[j]));
    }
    assert forall|i: int| 0 <= i < r.len() implies logs.contains(#[trigger] r[i]) by {
        assert(r[i] == s[i]);
        broadcast use vstd::seq_lib::group_to_multiset_ensures;
        assert(s.contains(s[i]));
        assert(s.to_multiset().count(s[i]) > 0);
    }
    if r.len() == logs.len() {
        assert(r == s);
    }
}

/// Recent runs come most recent first, at most `limit` of them, each one of the stored runs:
/// every run listed is stored, and, without a limit (or under it), every stored run is listed.
pub proof fn lemma_recent_runs_listing(runs: Seq<WorkflowRun>, limit: Option<usize>)
    ensures
        ({
            let r = limited(sorted_by(runs, recent_first()), limit);
            &&& forall|i: int, j: int| 0 <= i < j < r.len() ==> #[trigger] r[i].started_at >= #[trigger] r[j].started_at
            &&& r.len() == match limit {
                Some(n) => if (n as int) < runs.len() { n as int } else { runs.len() as int },
                None => runs.len() as int,
            }
            &&& forall|i: int| 0 <= i < r.len() ==> runs.contains(#[trigger] r[i])
            &&& r.len() == runs.len() ==> r.to_multiset() == runs.to_multiset()
        }),
{
    let s = sorted_by(runs, recent_first());
    lemma_sorted_by_sorted(runs, recent_first());
    lemma_sorted_by_perm(runs, recent_first());
    let r = limited(s, limit);
    assert forall|i: int, j: int| 0 <= i < j < r.len() implies #[trigger] r[i].started_at >= #[trigger] r[j].started_at by {
        assert(r[i] == s[i] && r[j] == s[j]);
        assert(recent_first()(s[i], s[j]));
    }
    assert forall|i: int| 0 <= i < r.len() implies runs.contains(#[trigger] r[i]) by {
        assert(r[i] == s[i]);
        broadcast use vstd::seq_lib::group_to_multiset_ensures;
        assert(s.contains(s[i]));
        assert(s.to_multiset().count(s[i]) > 0);
    }
    if r.len() == runs.len() {
        assert(r == s);
    }
}

fn truncate_to<T>(v: &mut Vec<T>, limit: Option<usize>)
    ensures
        final(v)@ == limited(old(v)@, limit),
{
    match limit {
        Some(n) => {
            if n < v.len() {
                v.truncate(n);
            }
        },
        None => {},
    }
}

/// The runs, most recent first (runs started at the same time keep their order), at most
/// `limit` of them.
pub fn recent_runs(runs: Vec<WorkflowRun>, limit: Option<usize>) -> (r: Vec<WorkflowRun>)
    ensures
        r@ == limited(sorted_by(runs@, recent_first()), limit),
{
    let ghost all = runs@;
    let mut rest = runs;
    let mut out: Vec<WorkflowRun> = Vec::new();
    let mut i: usize = 0;
    assert(rest@ == all.skip(0));
    assert(all.take(0) =~= Seq::<WorkflowRun>::empty());
    assert(all.len() <= usize::MAX) by {
        assert(all.len() == rest.len());
    }
    while rest.len() > 0
        invariant
            rest@ == all.skip(i as int),
            i <= all.len(),
            all.len() <= usize::MAX,
            out@ == sorted_by(all.take(i as int), recent_first()),
        decreases rest@.len(),
    {
        let x = rest.remove(0);
        assert(x == all[i as int]);
        assert(rest@ == all.skip(i + 1));
        let mut j: usize = out.len();
        while j > 0 && !(out[j - 1].started_at >= x.started_at)
            invariant
                j <= out@.len(),
                forall|k: int| j <= k < out@.len() ==> !recent_first()(#[trigger] out@[k], x),
            decreases j,
        {
            j -= 1;
        }
        proof {
            lemma_insert_at(out@, x, recent_first(), j as int);
            assert(all.take(i + 1).drop_last() == all.take(i as int));
            assert(all.take(i + 1).last() == x);
        }
        out.insert(j, x);
        i += 1;
    }
    assert(all.take(i as int) == all);
    truncate_to(&mut out, limit);
    out
}

/// The log lines, oldest first (lines with the same time keep their order), at most
/// `limit` of them.
pub fn logs_in_order(logs: Vec<LogEntry>, limit: Option<usize>) -> (r: Vec<LogEntry>)
    ensures
        r@ == limited(sorted_by(logs@, oldest_first()), limit),
{
    let ghost all = logs@;
    let mut rest = logs;
    let mut out: Vec<LogEntry> = Vec::new();
    let mut i: usize = 0;
    assert(rest@ == all.skip(0));
    assert(all.take(0) =~= Seq::<LogEntry>::empty());
    assert(all.len() <= usize::MAX) by {
        assert(all.len() == rest.len());
    }
    while rest.len() > 0
        invariant
            rest@ == all.skip(i as int),
            i <= all.len(),
            all.len() <= usize::MAX,
            out@ == sorted_by(all.take(i as int), oldest_first()),
        decreases rest@.len(),
    {
        let x = rest.remove(0);
        assert(x == all[i as int]);
        assert(rest@ == all.skip(i + 1));
        let mut j: usize = out.len();
        while j > 0 && !(out[j - 1].timestamp <= x.timestamp)
            invariant
                j <= out@.len(),
                forall|k: int| j <= k < out@.len() ==> !oldest_first()(#[trigger] out@[k], x),
            decreases j,
        {
            j -= 1;
        }
        proof {
            lemma_insert_at(out@, x, oldest_first(), j as int);
            assert(all.take(i + 1).drop_last() == all.take(i as int));
            assert(all.take(i + 1).last() == x);
        }
        out.insert(j, x);
        i += 1;
    }
    assert(all.take(i as int) == all);
    truncate_to(&mut out, limit);
    out
}

/// The key of a stored log line: its time in nanoseconds, `_`, the workflow's name.
pub fn log_entry_id(timestamp: i64, workflow_name: &str) -> (id: String)
    ensures
        id@ == signed_decimal(timestamp as int) + seq!['_'] + workflow_name@,
{
    let mut id = format_i64(timestamp);
    id.push('_');
    id.append(workflow_name);
    id
}

/// How many whole minutes lie between `from` and `to` (nanoseconds), rounded toward zero,
/// as chrono's `num_minutes` counts them.
pub open spec fn whole_minutes(from: i64, to: i64) -> int {
    let d = to - from;
    if d >= 0 {
        d / 60_000_000_000
    } else {
        -((-d) / 60_000_000_000)
    }
}

/// A cached response stored at `stored_at` with a time to live of `ttl_minutes` is stale at
/// `now` when its age in whole minutes, taken as a `u32` (wrapping as `as u32` does), exceeds
/// the time to live. Without a time to live it never goes stale.
pub open spec fn is_stale(now: i64, stored_at: i64, ttl_minutes: Option<u32>) -> bool {
    match ttl_minutes {
        Some(ttl) => (whole_minutes(stored_at, now) as i64) as u32 > ttl,
        None => false,
    }
}

/// Whether a cached response is stale.
pub fn cache_entry_expired(now: i64, stored_at: i64, ttl_minutes: Option<u32>) -> (b: bool)
    ensures
        b == is_stale(now, stored_at, ttl_minutes),
{
    match ttl_minutes {
        Some(ttl) => {
            let d: i128 = now as i128 - stored_at as i128;
            let minutes: i128 = if d >= 0 {
                d / 60_000_000_000
            } else {
                -((-d) / 60_000_000_000)
            };
            let m64 = minutes as i64;
            (m64 as u32) > ttl
        },
        None => false,
    }
}

/// A cached response as the store holds it.
pub struct CachedResponse {
    pub response_data: String,
    pub status_code: u16,
    /// When it was stored (nanoseconds since the epoch).
    pub stored_at: i64,
    pub ttl_minutes: Option<u32>,
}

/// What a lookup in the response cache comes to.
#[derive(Debug)]
pub enum CacheLookup {
    /// Nothing is cached under the key.
    Miss,
    /// The entry is stale: it is to be deleted, and nothing is returned.
    Expired,
    /// The cached response and its status code.
    Hit { response_data: String, status_code: u16 },
}

/// Decides a lookup in the response cache at `now`, given the entry stored under the key, if
/// any: nothing when there is none; when it is stale (see `is_stale`), nothing, and the
/// entry goes; otherwise the cached response, whatever its age when it has no time to live.
pub fn cache_lookup(entry: Option<CachedResponse>, now: i64) -> (r: CacheLookup)
    ensures
        match entry {
            None => r is Miss,
            Some(e) => if is_stale(now, e.stored_at, e.ttl_minutes) {
                r is Expired
            } else {
                r matches CacheLookup::Hit { response_data, status_code }
                    && response_data == e.response_data && status_code == e.status_code
            },
        },
{
    match entry {
        None => CacheLookup::Miss,
        Some(e) => {
            if cache_entry_expired(now, e.stored_at, e.ttl_minutes) {
                CacheLookup::Expired
            } else {
                CacheLookup::Hit { response_data: e.response_data, status_code: e.status_code }
            }
        },
    }
}

/// What `str::to_lowercase` gives for `s` (the Unicode lower-case mapping).
pub uninterp spec fn lowercase(s: Seq<char>) -> Seq<char>;

/// Calls `str::to_lowercase`; the result is named `lowercase(s)`.
#[verifier::external_body]
fn to_lower(s: &str) -> (r: String)
    ensures
        r@ == lowercase(s@),
{
    s.to_lowercase()
}

/// The bytes a `&str` writes into a hasher when hashed (`Hash for str`): its UTF-8 bytes,
/// then `0xff`.
pub open spec fn str_writes(s: Seq<char>) -> Seq<Seq<u8>> {
    seq![vstd::utf8::encode_utf8(s), seq![0xffu8]]
}

fn hash_str(h: &mut DefaultHasher, s: &str)
    ensures
        final(h)@ == old(h)@ + str_writes(s@),
{
    let bytes = s.as_bytes();
    assert(bytes@ == s.spec_bytes());
    assert(s.spec_bytes() == vstd::utf8::encode_utf8(s@));
    h.write(bytes);
    let ff: [u8; 1] = [0xffu8];
    let end: &[u8] = &ff;
    assert(end@ =~= seq![0xffu8]);
    h.write(end);
    assert(h@ =~= old(h)@ + str_writes(s@));
}

/// Header pairs ordered by key.
pub open spec fn key_le() -> spec_fn((String, String), (String, String)) -> bool {
    |a: (String, String), b: (String, String)| lex_le(a.0@, b.0@)
}

/// The writes of the header pairs sorted by key: each key, then its value.
pub open spec fn header_writes(hs: Seq<(String, String)>) -> Seq<Seq<u8>>
    decreases hs.len(),
{
    if hs.len() == 0 {
        seq![]
    } else {
        header_writes(hs.drop_last()) + str_writes(hs.last().0@) + str_writes(hs.last().1@)
    }
}

fn sorted_headers(headers: &StringMap) -> (r: Vec<(String, String)>)
    ensures
        r@ == sorted_by(headers.entry_seq(), key_le()),
{
    let all = headers.entries();
    let mut out: Vec<(String, String)> = Vec::new();
    let mut i: usize = 0;
    assert(all@.take(0) =~= Seq::<(String, String)>::empty());
    while i < all.len()
        invariant
            i <= all@.len(),
            all@ == headers.entry_seq(),
            out@ == sorted_by(all@.take(i as int), key_le()),
        decreases all@.len() - i,
    {
        let x = (all[i].0.clone(), all[i].1.clone());
        assert(x == all@[i as int]);
        let mut j: usize = out.len();
        while j > 0 && !text_le(out[j - 1].0.as_str(), x.0.as_str())
            invariant
                j <= out@.len(),
                forall|k: int| j <= k < out@.len() ==> !key_le()(#[trigger] out@[k], x),
            decreases j,
        {
            j -= 1;
        }
        proof {
            lemma_insert_at(out@, x, key_le(), j as int);
            assert(all@.take(i + 1).drop_last() == all@.take(i as int));
            assert(all@.take(i + 1).last() == x);
        }
        out.insert(j, x);
        i += 1;
    }
    assert(all@.take(i as int) == all@);
    out
}

fn hash_headers(h: &mut DefaultHasher, sorted: &Vec<(String, String)>)
    ensures
        final(h)@ == old(h)@ + header_writes(sorted@),
{
    let mut i: usize = 0;
    assert(sorted@.take(0) =~= Seq::<(String, String)>::empty());
    while i < sorted.len()
        invariant
            i <= sorted@.len(),
            h@ == old(h)@ + header_writes(sorted@.take(i as int)),
        decreases sorted@.len() - i,
    {
        assert(sorted@.take(i + 1).drop_last() == sorted@.take(i as int));
        hash_str(h, sorted[i].0.as_str());
        hash_str(h, sorted[i].1.as_str());
        i += 1;
    }
    assert(sorted@.take(i as int) == sorted@);
}

/// The hash `DefaultHasher` gives for a request: url, method, the headers sorted by key
/// (each key then value), then the body if there is one.
pub open spec fn request_hash(url: &str, method: &str, headers: StringMap, body: Option<&str>) -> u64 {
    DefaultHasher::spec_finish(
        str_writes(url@) + str_writes(method@) + header_writes(sorted_by(headers.entry_seq(), key_le()))
            + match body {
            Some(b) => str_writes(b@),
            None => seq![],
        },
    )
}

/// The key of a cached API response: `api_<method in lower case>_<request hash>`.
pub fn api_cache_key(url: &str, method: &str, headers: &StringMap, body: Option<&str>) -> (key: String)
    ensures
        key@ == seq!['a', 'p', 'i', '_'] + lowercase(method@) + seq!['_']
            + decimal(request_hash(url, method, *headers, body) as nat),
{
    let mut h = DefaultHasher::new();
    hash_str(&mut h, url);
    hash_str(&mut h, method);
    let sorted = sorted_headers(headers);
    hash_headers(&mut h, &sorted);
    match body {
        Some(b) => hash_str(&mut h, b),
        None => {},
    }
    let hash = h.finish();
    let mut key = String::new();
    key.push('a');
    key.push('p');
    key.push('i');
    key.push('_');
    let lower = to_lower(method);
    key.append(lower.as_str());
    key.push('_');
    let digits = format_u64(hash);
    key.append(digits.as_str());
    key
}

/// The decimal hash of the headers alone, sorted by key.
pub fn headers_hash(headers: &StringMap) -> (r: String)
    ensures
        r@ == decimal(DefaultHasher::spec_finish(header_writes(sorted_by(headers.entry_seq(), key_le()))) as nat),
{
    let mut h = DefaultHasher::new();
    let sorted = sorted_headers(headers);
    hash_headers(&mut h, &sorted);
    assert(h@ == header_writes(sorted@));
    format_u64(h.finish())
}

/// The decimal hash of a request body.
pub fn body_hash(body: &str) -> (r: String)
    ensures
        r@ == decimal(DefaultHasher::spec_finish(str_writes(body@)) as nat),
{
    let mut h = DefaultHasher::new();
    hash_str(&mut h, body);
    assert(h@ == str_writes(body@));
    format_u64(h.finish())
}

/// A header pair as text.
pub open spec fn pair_view(e: (String, String)) -> (Seq<char>, Seq<char>) {
    (e.0@, e.1@)
}

/// Header pairs as text.
pub open spec fn pair_views(s: Seq<(String, String)>) -> Seq<(Seq<char>, Seq<char>)> {
    s.map_values(|e: (String, String)| pair_view(e))
}

/// Text pairs ordered by key.
pub open spec fn text_key_le() -> spec_fn((Seq<char>, Seq<char>), (Seq<char>, Seq<char>)) -> bool {
    |a: (Seq<char>, Seq<char>), b: (Seq<char>, Seq<char>)| lex_le(a.0, b.0)
}

proof fn lemma_insert_views(t: Seq<(String, String)>, x: (String, String))
    ensures
        pair_views(insert_by(t, x, key_le())) == insert_by(pair_views(t), pair_view(x), text_key_le()),
    decreases t.len(),
{
    let pt = pair_views(t);
    if t.len() == 0 {
        assert(pair_views(seq![x]) =~= seq![pair_view(x)]);
    } else {
        assert(pt.last() == pair_view(t.last()));
        assert(pt.drop_last() =~= pair_views(t.drop_last()));
        if key_le()(t.last(), x) {
            assert(pair_views(t.push(x)) =~= pt.push(pair_view(x)));
        } else {
            lemma_insert_views(t.drop_last(), x);
            assert(pair_views(insert_by(t.drop_last(), x, key_le()).push(t.last())) =~= pair_views(
                insert_by(t.drop_last(), x, key_le()),
            ).push(pair_view(t.last())));
        }
    }
}

proof fn lemma_sorted_views(s: Seq<(String, String)>)
    ensures
        pair_views(sorted_by(s, key_le())) == sorted_by(pair_views(s), text_key_le()),
    decreases s.len(),
{
    let ps = pair_views(s);
    if s.len() == 0 {
        assert(pair_views(Seq::<(String, String)>::empty()) =~= Seq::<(Seq<char>, Seq<char>)>::empty());
    } else {
        lemma_sorted_views(s.drop_last());
        lemma_insert_views(sorted_by(s.drop_last(), key_le()), s.last());
        assert(ps.drop_last() =~= pair_views(s.drop_last()));
        assert(ps.last() == pair_view(s.last()));
    }
}

proof fn lemma_header_writes_views(h1: Seq<(String, String)>, h2: Seq<(String, String)>)
    requires
        pair_views(h1) == pair_views(h2),
    ensures
        header_writes(h1) == header_writes(h2),
    decreases h1.len(),
{
    assert(h1.len() == pair_views(h1).len() && h2.len() == pair_views(h2).len());
    if h1.len() > 0 {
        assert(pair_views(h1.drop_last()) =~= pair_views(h1).drop_last());
        assert(pair_views(h2.drop_last()) =~= pair_views(h2).drop_last());
        lemma_header_writes_views(h1.drop_last(), h2.drop_last());
        assert(pair_view(h1.last()) == pair_views(h1).last());
        assert(pair_view(h2.last()) == pair_views(h2).last());
    }
}

/// Each key has at most one value among the pairs of `m`.
pub open spec fn keys_functional(m: Multiset<(Seq<char>, Seq<char>)>) -> bool {
    forall|x: (Seq<char>, Seq<char>), y: (Seq<char>, Seq<char>)|
        #[trigger] m.contains(x) && #[trigger] m.contains(y) && x.0 == y.0 ==> x == y
}

proof fn lemma_text_key_order()
    ensures
        total_preorder(text_key_le()),
{
    assert forall|a: (Seq<char>, Seq<char>), b: (Seq<char>, Seq<char>)| #[trigger] text_key_le()(a, b) || text_key_le()(b, a) by {
        lemma_lex_total(a.0, b.0);
    }
    assert forall|a: (Seq<char>, Seq<char>), b: (Seq<char>, Seq<char>), c: (Seq<char>, Seq<char>)|
        #[trigger] text_key_le()(a, b) && #[trigger] text_key_le()(b, c) implies text_key_le()(a, c) by {
        lemma_lex_transitive(a.0, b.0, c.0);
    }
}

/// Two sequences sorted by key, without repeats, with the same pairs, where no key has two
/// values, are the same sequence.
proof fn lemma_sorted_unique(s1: Seq<(Seq<char>, Seq<char>)>, s2: Seq<(Seq<char>, Seq<char>)>)
    requires
        is_sorted_by(s1, text_key_le()),
        is_sorted_by(s2, text_key_le()),
        s1.to_multiset() == s2.to_multiset(),
        keys_functional(s1.to_multiset()),
    ensures
        s1 == s2,
    decreases s1.len(),
{
    broadcast use vstd::seq_lib::group_to_multiset_ensures;
    assert(s1.len() == s1.to_multiset().len() && s2.len() == s2.to_multiset().len());
    if s1.len() > 0 {
        let n = s1.len() - 1;
        let x1 = s1.last();
        let x2 = s2.last();
        let m = s1.to_multiset();
        assert(s1.contains(x1)) by {
            assert(s1[n] == x1);
        }
        assert(s2.contains(x2)) by {
            assert(s2[n] == x2);
        }
        assert(m.contains(x1) && m.contains(x2));
        assert(s2.contains(x1));
        let j = choose|j: int| 0 <= j < s2.len() && s2[j] == x1;
        if j < n {
            assert(text_key_le()(s2[j], s2[n]));
        } else {
            lemma_lex_total(x1.0, x2.0);
        }
        assert(s1.contains(x2));
        let i = choose|i: int| 0 <= i < s1.len() && s1[i] == x2;
        if i < n {
            assert(text_key_le()(s1[i], s1[n]));
        } else {
            lemma_lex_total(x1.0, x2.0);
        }
        lemma_lex_antisymmetric(x1.0, x2.0);
        assert(x1 == x2);
        let d1 = s1.drop_last();
        let d2 = s2.drop_last();
        assert(s1 == d1.push(x1));
        assert(s2 == d2.push(x2));
        assert(d1.to_multiset() =~= d2.to_multiset()) by {
            assert(s1.to_multiset() == d1.to_multiset().insert(x1));
            assert(s2.to_multiset() == d2.to_multiset().insert(x2));
            assert forall|y: (Seq<char>, Seq<char>)| d1.to_multiset().count(y) == d2.to_multiset().count(y) by {
                broadcast use vstd::multiset::group_multiset_axioms;
                assert(s1.to_multiset().count(y) == s2.to_multiset().count(y));
                assert(d1.to_multiset().insert(x1).count(y) == d1.to_multiset().count(y) + if y == x1 { 1int } else { 0int });
                assert(d2.to_multiset().insert(x2).count(y) == d2.to_multiset().count(y) + if y == x2 { 1int } else { 0int });
            }
        }
        assert(is_sorted_by(d1, text_key_le())) by {
            assert forall|a: int, b: int| 0 <= a < b < d1.len() implies #[trigger] text_key_le()(d1[a], d1[b]) by {
                assert(text_key_le()(s1[a], s1[b]));
            }
        }
        assert(is_sorted_by(d2, text_key_le())) by {
            assert forall|a: int, b: int| 0 <= a < b < d2.len() implies #[trigger] text_key_le()(d2[a], d2[b]) by {
                assert(text_key_le()(s2[a], s2[b]));
            }
        }
        assert(keys_functional(d1.to_multiset())) by {
            assert forall|x: (Seq<char>, Seq<char>), y: (Seq<char>, Seq<char>)|
                #[trigger] d1.to_multiset().contains(x) && #[trigger] d1.to_multiset().contains(y) && x.0 == y.0 implies x == y by {
                assert(m.count(x) >= d1.to_multiset().count(x));
                assert(m.count(y) >= d1.to_multiset().count(y));
                assert(m.contains(x) && m.contains(y));
            }
        }
        lemma_sorted_unique(d1, d2);
    }
}

/// The pairs of a well-formed map with the values `value_of` gives: one pair for each key
/// that has a value.
proof fn lemma_map_pairs(a: StringMap)
    requires
        a.well_formed(),
    ensures
        pair_views(a.entry_seq()).no_duplicates(),
        forall|x: (Seq<char>, Seq<char>)| pair_views(a.entry_seq()).contains(x) <==> #[trigger] a.value_of(x.0) == Some(x.1),
{
    a.lemma_entries();
    let e = a.entry_seq();
    let u = pair_views(e);
    lemma_distinct_lookup(e);
    assert forall|i: int, j: int| 0 <= i < u.len() && 0 <= j < u.len() && i != j implies u[i] != u[j] by {
        if i < j {
            assert(e[i].0@ != e[j].0@);
        } else {
            assert(e[j].0@ != e[i].0@);
        }
    }
    assert forall|x: (Seq<char>, Seq<char>)| u.contains(x) <==> #[trigger] a.value_of(x.0) == Some(x.1) by {
        if u.contains(x) {
            let i = choose|i: int| 0 <= i < u.len() && u[i] == x;
            assert(lookup_entries(e, e[i].0@) == Some(e[i].1@));
        }
        if a.value_of(x.0) == Some(x.1) {
            assert(lookup_entries(e, x.0) is Some);
            let i = choose|i: int| 0 <= i < e.len() && e[i].0@ == x.0 && e[i].1@ == lookup_entries(e, x.0)->0;
            assert(u[i] == x);
        }
    }
}

/// The cache key of a request depends on what its headers say, not on the order they were
/// given in: two header maps that give each name the same value hash the same, so the
/// request gets the same cache key.
pub proof fn lemma_cache_key_ignores_header_order(
    url: &str,
    method: &str,
    a: StringMap,
    b: StringMap,
    body: Option<&str>,
)
    requires
        a.well_formed(),
        b.well_formed(),
        forall|k: Seq<char>| #[trigger] a.value_of(k) == b.value_of(k),
    ensures
        request_hash(url, method, a, body) == request_hash(url, method, b, body),
{
    broadcast use vstd::seq_lib::group_to_multiset_ensures;
    let u = pair_views(a.entry_seq());
    let w = pair_views(b.entry_seq());
    lemma_map_pairs(a);
    lemma_map_pairs(b);
    u.lemma_multiset_has_no_duplicates();
    w.lemma_multiset_has_no_duplicates();
    assert(u.to_multiset() =~= w.to_multiset()) by {
        assert forall|x: (Seq<char>, Seq<char>)| u.to_multiset().count(x) == w.to_multiset().count(x) by {
            assert(u.contains(x) == (a.value_of(x.0) == Some(x.1)));
            assert(w.contains(x) == (b.value_of(x.0) == Some(x.1)));
        }
    }
    assert(keys_functional(u.to_multiset())) by {
        assert forall|x: (Seq<char>, Seq<char>), y: (Seq<char>, Seq<char>)|
            #[trigger] u.to_multiset().contains(x) && #[trigger] u.to_multiset().contains(y) && x.0 == y.0 implies x == y by {
            assert(u.contains(x) && u.contains(y));
            assert(a.value_of(x.0) == Some(x.1));
            assert(a.value_of(y.0) == Some(y.1));
        }
    }
    lemma_text_key_order();
    lemma_sorted_by_sorted(u, text_key_le());
    lemma_sorted_by_sorted(w, text_key_le());
    lemma_sorted_by_perm(u, text_key_le());
    lemma_sorted_by_perm(w, text_key_le());
    lemma_sorted_unique(sorted_by(u, text_key_le()), sorted_by(w, text_key_le()));
    lemma_sorted_views(a.entry_seq());
    lemma_sorted_views(b.entry_seq());
    lemma_header_writes_views(sorted_by(a.entry_seq(), key_le()), sorted_by(b.entry_seq(), key_le()));
}

} // verus!
