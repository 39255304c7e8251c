//! API log adapter: access logs become ApiEndpoint entities whose confidence
//! grows with traffic, and endpoints with many errors are flagged.
use vstd::prelude::*;

use crate::entity::{local_id, DiscoverySource, EntityId, EntityKind, KindView};
use crate::event::{fresh_events, 
    conflict_views, payloads, push_event, ConflictSource, ConflictSourceView, ConflictType,
    EventPayload, PayloadView, UcmEvent,
};
use crate::source_events::{concat_all, concat_map};
use crate::text::{
    cat2, cat3, chars_of, chars_of_string, copy, decimal, decimal_exec, digit, eq, extend, push_str,
    string_of,
};

verus! {

broadcast use vstd::string::group_string_axioms;

/// A simplified API access log entry.
#[derive(Debug, Clone)]
pub struct ApiLogEntry {
    pub method: String,
    pub path: String,
    pub status_code: u16,
    pub response_time_ms: u64,
    pub handler: Option<String>,
    pub timestamp: String,
}

/// The key an entry is grouped by: `method:path`.
pub open spec fn log_key(l: ApiLogEntry) -> Seq<char> {
    l.method@ + ":"@ + l.path@
}

/// The distinct keys of the first `n` entries, in the order they first appear.
pub open spec fn group_keys(logs: Seq<ApiLogEntry>, n: int) -> Seq<Seq<char>>
    decreases n,
{
    if n <= 0 || n > logs.len() {
        seq![]
    } else {
        let prev = group_keys(logs, n - 1);
        let k = log_key(logs[n - 1]);
        if prev.contains(k) {
            prev
        } else {
            prev.push(k)
        }
    }
}

/// The first of the first `n` entries with key `k`.
pub open spec fn first_with_key(logs: Seq<ApiLogEntry>, k: Seq<char>, n: int) -> Option<int>
    decreases n,
{
    if n <= 0 || n > logs.len() {
        None
    } else {
        match first_with_key(logs, k, n - 1) {
            Some(i) => Some(i),
            None => if log_key(logs[n - 1]) == k {
                Some(n - 1)
            } else {
                None
            },
        }
    }
}

/// How many of the first `n` entries have key `k`.
pub open spec fn key_count(logs: Seq<ApiLogEntry>, k: Seq<char>, n: int) -> nat
    decreases n,
{
    if n <= 0 || n > logs.len() {
        0
    } else {
        key_count(logs, k, n - 1) + if log_key(logs[n - 1]) == k {
            1nat
        } else {
            0nat
        }
    }
}

/// The total response time of the first `n` entries with key `k`.
pub open spec fn key_total_ms(logs: Seq<ApiLogEntry>, k: Seq<char>, n: int) -> nat
    decreases n,
{
    if n <= 0 || n > logs.len() {
        0
    } else {
        key_total_ms(logs, k, n - 1) + if log_key(logs[n - 1]) == k {
            logs[n - 1].response_time_ms as nat
        } else {
            0nat
        }
    }
}

/// How many of the first `n` entries with key `k` failed (status 400 or above).
pub open spec fn key_errors(logs: Seq<ApiLogEntry>, k: Seq<char>, n: int) -> nat
    decreases n,
{
    if n <= 0 || n > logs.len() {
        0
    } else {
        key_errors(logs, k, n - 1) + if log_key(logs[n - 1]) == k && logs[n - 1].status_code
            >= 400 {
            1nat
        } else {
            0nat
        }
    }
}

/// Traffic-based confidence, in millionths: `calls / 100`, clamped to `[0.30, 0.95]`.
pub open spec fn traffic_confidence(calls: nat) -> u32 {
    let c = calls * 10_000;
    if c < 300_000 {
        300_000
    } else if c > 950_000 {
        950_000
    } else {
        c as u32
    }
}

/// An error rate above 5%.
pub open spec fn high_error_rate(errors: nat, calls: nat) -> bool {
    errors * 20 > calls
}

/// `errors / calls` in tenths of a percent, rounded to the nearest, ties to even.
pub open spec fn error_tenths(errors: nat, calls: nat) -> nat {
    let q = (errors * 1000) / calls;
    let r = (errors * 1000) % calls;
    if 2 * r > calls {
        q + 1
    } else if 2 * r < calls {
        q
    } else if q % 2 == 0 {
        q
    } else {
        q + 1
    }
}

/// The error rate as a percentage with one decimal (`{:.1}`).
pub open spec fn percent_text(errors: nat, calls: nat) -> Seq<char> {
    let t = error_tenths(errors, calls);
    decimal(t / 10) + "."@ + seq![digit(t % 10)]
}

/// The events of one endpoint `k` of the logs: its entity, and a flag where its
/// error rate is above 5%.
pub open spec fn endpoint_payloads(logs: Seq<ApiLogEntry>, k: Seq<char>) -> Seq<PayloadView> {
    let n = logs.len() as int;
    let first = logs[first_with_key(logs, k, n).unwrap()];
    let calls = key_count(logs, k, n);
    let errors = key_errors(logs, k, n);
    let avg = key_total_ms(logs, k, n) / calls;
    let fp = "api/"@ + first.path@;
    let id = local_id(fp, k);
    let head = first.method@ + " "@ + first.path@;
    seq![
        PayloadView::EntityDiscovered {
            entity_id: id,
            kind: KindView::ApiEndpoint {
                method: first.method@,
                route: first.path@,
                handler: match first.handler {
                    Some(h) => h@,
                    None => "unknown"@,
                },
            },
            name: head + " ("@ + decimal(calls) + " calls, "@ + decimal(avg) + "ms avg)"@,
            file_path: fp,
            language: "api"@,
            source: DiscoverySource::ApiTraffic,
            line_range: None,
        },
    ] + if high_error_rate(errors, calls) {
        seq![
            PayloadView::ConflictFlagged {
                entity_id: id,
                conflict_type: ConflictType::RequirementDrift,
                sources: seq![
                    ConflictSourceView {
                        source_type: "api-logs"@,
                        claimed_value: percent_text(errors, calls) + "% error rate"@,
                        confidence: traffic_confidence(calls),
                    },
                ],
                description: "Endpoint "@ + head + " has "@ + percent_text(errors, calls)
                    + "% error rate over "@ + decimal(calls) + " calls"@,
            },
        ]
    } else {
        seq![]
    }
}

/// `endpoint_payloads` for a list of logs.
pub open spec fn endpoint_fn(logs: Seq<ApiLogEntry>) -> spec_fn(Seq<char>) -> Seq<PayloadView> {
    |k: Seq<char>| endpoint_payloads(logs, k)
}

/// The events of a list of logs: one endpoint per distinct `method:path`, in
/// the order each first appears.
pub open spec fn api_log_payloads(logs: Seq<ApiLogEntry>) -> Seq<PayloadView> {
    concat_all(group_keys(logs, logs.len() as int), endpoint_fn(logs))
}

/// A method with no `:` in it, as HTTP methods are.
pub open spec fn plain_method(l: ApiLogEntry) -> bool {
    forall|j: int| 0 <= j < l.method@.len() ==> l.method@[j] != ':'
}

/// Two keys `method:path` with plain methods are equal only for equal methods
/// and paths.
proof fn lemma_key_split(a: ApiLogEntry, b: ApiLogEntry)
    requires
        plain_method(a),
        plain_method(b),
        log_key(a) == log_key(b),
    ensures
        a.method@ == b.method@,
        a.path@ == b.path@,
{
    reveal_strlit(":");
    let ka = log_key(a);
    let kb = log_key(b);
    let ma = a.method@;
    let mb = b.method@;
    assert(ka =~= ma + seq![':'] + a.path@);
    assert(kb =~= mb + seq![':'] + b.path@);
    if ma.len() < mb.len() {
        assert(ka[ma.len() as int] == ':');
        assert(kb[ma.len() as int] == mb[ma.len() as int]);
    } else if mb.len() < ma.len() {
        assert(kb[mb.len() as int] == ':');
        assert(ka[mb.len() as int] == ma[mb.len() as int]);
    }
    assert(ma.len() == mb.len());
    assert(ma =~= ka.subrange(0, ma.len() as int));
    assert(mb =~= kb.subrange(0, mb.len() as int));
    assert(a.path@ =~= ka.subrange(ma.len() as int + 1, ka.len() as int));
    assert(b.path@ =~= kb.subrange(mb.len() as int + 1, kb.len() as int));
}

/// Where some of the first `n` entries has key `k`, the first such is found.
proof fn lemma_first_with_key(logs: Seq<ApiLogEntry>, k: Seq<char>, n: int, i: int)
    requires
        0 <= i < n <= logs.len(),
        log_key(logs[i]) == k,
    ensures
        first_with_key(logs, k, n) is Some,
        0 <= first_with_key(logs, k, n).unwrap() < n,
        log_key(logs[first_with_key(logs, k, n).unwrap()]) == k,
    decreases n,
{
    if i < n - 1 {
        lemma_first_with_key(logs, k, n - 1, i);
    } else {
        lemma_first_with_key_bound(logs, k, n - 1);
    }
}

/// The key of each of the first `n` entries is among their group keys.
proof fn lemma_key_grouped(logs: Seq<ApiLogEntry>, n: int, i: int)
    requires
        0 <= i < n <= logs.len(),
    ensures
        group_keys(logs, n).contains(log_key(logs[i])),
    decreases n,
{
    let prev = group_keys(logs, n - 1);
    let k = log_key(logs[n - 1]);
    if i < n - 1 {
        lemma_key_grouped(logs, n - 1, i);
        if !prev.contains(k) {
            let j = choose|j: int| 0 <= j < prev.len() && prev[j] == log_key(logs[i]);
            assert(prev.push(k)[j] == log_key(logs[i]));
        }
    } else {
        if !prev.contains(k) {
            assert(prev.push(k)[prev.len() as int] == k);
        }
    }
}

/// Every log entry is counted in an endpoint that is reported, and that
/// endpoint is its own method and path: entries whose methods (or paths)
/// differ are never counted in the same endpoint.
pub proof fn endpoint_is_the_entrys_method_and_path(logs: Seq<ApiLogEntry>, i: int)
    requires
        0 <= i < logs.len(),
        forall|j: int| 0 <= j < logs.len() ==> plain_method(#[trigger] logs[j]),
    ensures
        group_keys(logs, logs.len() as int).contains(log_key(logs[i])),
        endpoint_payloads(logs, log_key(logs[i])).len() >= 1,
        endpoint_payloads(logs, log_key(logs[i]))[0] matches PayloadView::EntityDiscovered {
            kind: KindView::ApiEndpoint { method, route, .. },
            ..
        } && method == logs[i].method@ && route == logs[i].path@,
        forall|j: int|
            0 <= j < logs.len() && (logs[j].method@ != logs[i].method@ || logs[j].path@ != logs[i].path@) ==> log_key(
                #[trigger] logs[j],
            ) != log_key(logs[i]),
{
    let n = logs.len() as int;
    let k = log_key(logs[i]);
    lemma_key_grouped(logs, n, i);
    lemma_first_with_key(logs, k, n, i);
    let f = first_with_key(logs, k, n).unwrap();
    lemma_key_split(logs[f], logs[i]);
    assert forall|j: int|
        0 <= j < logs.len() && (logs[j].method@ != logs[i].method@ || logs[j].path@ != logs[i].path@) implies log_key(
        #[trigger] logs[j],
    ) != log_key(logs[i]) by {
        if log_key(logs[j]) == log_key(logs[i]) {
            lemma_key_split(logs[j], logs[i]);
        }
    }
}

/// The running statistics of one group of log entries.
struct Group {
    key: Vec<char>,
    first: usize,
    calls: usize,
    total_ms: u128,
    errors: usize,
}

/// The groups hold, in order, the statistics of the distinct keys of the first `n` entries.
spec fn groups_match(groups: Seq<Group>, logs: Seq<ApiLogEntry>, n: int) -> bool {
    &&& groups.len() == group_keys(logs, n).len()
    &&& forall|g: int|
        0 <= g < groups.len() ==> {
            let k = group_keys(logs, n)[g];
            &&& (#[trigger] groups[g]).key@ == k
            &&& first_with_key(logs, k, n) == Some(groups[g].first as int)
            &&& groups[g].calls == key_count(logs, k, n)
            &&& groups[g].total_ms == key_total_ms(logs, k, n)
            &&& groups[g].errors == key_errors(logs, k, n)
            &&& groups[g].errors <= groups[g].calls
            &&& groups[g].calls >= 1
            &&& groups[g].calls <= n
            &&& groups[g].total_ms <= groups[g].calls * 0xFFFF_FFFF_FFFF_FFFFu64
        }
}

/// A key absent from the distinct keys has no entries, and the distinct keys are distinct.
proof fn lemma_absent_key(logs: Seq<ApiLogEntry>, k: Seq<char>, n: int)
    requires
        0 <= n <= logs.len(),
        !group_keys(logs, n).contains(k),
    ensures
        key_count(logs, k, n) == 0,
        key_total_ms(logs, k, n) == 0,
        key_errors(logs, k, n) == 0,
        first_with_key(logs, k, n) is None,
    decreases n,
{
    if n > 0 {
        let prev = group_keys(logs, n - 1);
        let kn = log_key(logs[n - 1]);
        assert(!prev.contains(k)) by {
            if prev.contains(k) {
                let j = choose|j: int| 0 <= j < prev.len() && prev[j] == k;
                if !prev.contains(kn) {
                    assert(group_keys(logs, n)[j] == k);
                }
            }
        }
        if !prev.contains(kn) {
            assert(group_keys(logs, n)[prev.len() as int] == kn);
        }
        lemma_absent_key(logs, k, n - 1);
    }
}

/// No key occurs twice among the distinct keys.
proof fn lemma_group_keys_distinct(logs: Seq<ApiLogEntry>, n: int)
    ensures
        group_keys(logs, n).no_duplicates(),
    decreases n,
{
    if n > 0 && n <= logs.len() {
        lemma_group_keys_distinct(logs, n - 1);
    }
}

/// The group of a key, if one exists.
fn find_group(groups: &Vec<Group>, k: &Vec<char>) -> (r: Option<usize>)
    ensures
        r matches Some(g) ==> g < groups.len() && groups@[g as int].key@ == k@,
        r is None ==> forall|g: int| 0 <= g < groups.len() ==> #[trigger] groups@[g].key@ != k@,
{
    let mut g: usize = 0;
    while g < groups.len()
        invariant
            g <= groups.len(),
            forall|h: int| 0 <= h < g ==> #[trigger] groups@[h].key@ != k@,
        decreases groups.len() - g,
    {
        if eq(&groups[g].key, k) {
            return Some(g);
        }
        g += 1;
    }
    None
}

/// The grouping key of an entry.
fn log_key_exec(l: &ApiLogEntry) -> (r: Vec<char>)
    ensures
        r@ == log_key(*l),
{
    let mut k = chars_of_string(&l.method);
    push_str(&mut k, ":");
    push_str(&mut k, l.path.as_str());
    k
}

/// Groups the entries by key, with each group's statistics.
fn group_logs(logs: &[ApiLogEntry]) -> (r: Vec<Group>)
    ensures
        groups_match(r@, logs@, logs@.len() as int),
{
    let mut groups: Vec<Group> = Vec::new();
    let mut i: usize = 0;
    while i < logs.len()
        invariant
            i <= logs.len(),
            groups_match(groups@, logs@, i as int),
        decreases logs.len() - i,
    {
        let l = &logs[i];
        let k = log_key_exec(l);
        let ghost ks = group_keys(logs@, i as int);
        let is_error = l.status_code >= 400;
        match find_group(&groups, &k) {
            Some(g) => {
                assert(ks[g as int] == k@);
                assert(ks.contains(k@));
                let ghost before = groups@;
                let old = &groups[g];
                let updated = Group {
                    key: copy(&old.key),
                    first: old.first,
                    calls: old.calls + 1,
                    total_ms: old.total_ms + l.response_time_ms as u128,
                    errors: if is_error {
                        old.errors + 1
                    } else {
                        old.errors
                    },
                };
                groups.set(g, updated);
                assert(group_keys(logs@, i + 1) == ks);
                proof {
                    lemma_group_keys_distinct(logs@, i as int);
                }
                assert forall|h: int| 0 <= h < groups@.len() implies {
                    let kk = group_keys(logs@, i + 1)[h];
                    &&& (#[trigger] groups@[h]).key@ == kk
                    &&& first_with_key(logs@, kk, i + 1) == Some(groups@[h].first as int)
                    &&& groups@[h].calls == key_count(logs@, kk, i + 1)
                    &&& groups@[h].total_ms == key_total_ms(logs@, kk, i + 1)
                    &&& groups@[h].errors == key_errors(logs@, kk, i + 1)
                    &&& groups@[h].errors <= groups@[h].calls
                    &&& groups@[h].calls >= 1
                    &&& groups@[h].calls <= i + 1
                    &&& groups@[h].total_ms <= groups@[h].calls * 0xFFFF_FFFF_FFFF_FFFFu64
                } by {
                    assert(before[h].key@ == ks[h]);
                    if h != g {
                        assert(groups@[h] == before[h]);
                        assert(ks[h] != ks[g as int]);
                    }
                }
            },
            None => {
                assert(!ks.contains(k@)) by {
                    if ks.contains(k@) {
                        let h = choose|h: int| 0 <= h < ks.len() && ks[h] == k@;
                        assert(groups@[h].key@ == ks[h]);
                    }
                }
                proof {
                    lemma_absent_key(logs@, k@, i as int);
                }
                let ghost before = groups@;
                let ghost kv = k@;
                let fresh = Group {
                    key: k,
                    first: i,
                    calls: 1,
                    total_ms: l.response_time_ms as u128,
                    errors: if is_error {
                        1
                    } else {
                        0
                    },
                };
                groups.push(fresh);
                assert(group_keys(logs@, i + 1) == ks.push(log_key(logs@[i as int])));
                assert forall|h: int| 0 <= h < groups@.len() implies {
                    let kk = group_keys(logs@, i + 1)[h];
                    &&& (#[trigger] groups@[h]).key@ == kk
                    &&& first_with_key(logs@, kk, i + 1) == Some(groups@[h].first as int)
                    &&& groups@[h].calls == key_count(logs@, kk, i + 1)
                    &&& groups@[h].total_ms == key_total_ms(logs@, kk, i + 1)
                    &&& groups@[h].errors == key_errors(logs@, kk, i + 1)
                    &&& groups@[h].errors <= groups@[h].calls
                    &&& groups@[h].calls >= 1
                    &&& groups@[h].calls <= i + 1
                    &&& groups@[h].total_ms <= groups@[h].calls * 0xFFFF_FFFF_FFFF_FFFFu64
                } by {
                    if h < before.len() {
                        assert(groups@[h] == before[h]);
                        assert(before[h].key@ == ks[h]);
                        assert(ks[h] != log_key(logs@[i as int]));
                        assert(key_count(logs@, ks[h], i + 1) == key_count(logs@, ks[h], i as int));
                        assert(groups@[h].calls == key_count(logs@, group_keys(logs@, i + 1)[h], i + 1));
                    } else {
                        assert(key_count(logs@, log_key(logs@[i as int]), i + 1) == 1);
                        assert(groups@[h] == fresh);
                        assert(groups@[h].calls == 1);
                        assert(group_keys(logs@, i + 1)[h] == log_key(logs@[i as int]));
                    }
                }
            },
        }
        i += 1;
    }
    groups
}

/// Traffic-based confidence, in millionths.
fn traffic_confidence_exec(calls: usize) -> (r: u32)
    ensures
        r == traffic_confidence(calls as nat),
{
    let c: u128 = calls as u128 * 10_000;
    if c < 300_000 {
        300_000
    } else if c > 950_000 {
        950_000
    } else {
        c as u32
    }
}

/// The error rate as a percentage with one decimal.
fn percent_text_exec(errors: usize, calls: usize) -> (r: Vec<char>)
    requires
        errors <= calls,
        calls >= 1,
    ensures
        r@ == percent_text(errors as nat, calls as nat),
{
    let scaled: u128 = errors as u128 * 1000;
    let c: u128 = calls as u128;
    let q: u128 = scaled / c;
    let rem: u128 = scaled % c;
    assert(q <= 1000) by (nonlinear_arith)
        requires
            scaled == errors * 1000,
            q == scaled / c,
            errors <= c,
            c >= 1,
    {
        assert(scaled <= c * 1000);
    }
    let t: u128 = if 2 * rem > c {
        q + 1
    } else if 2 * rem < c {
        q
    } else if q % 2 == 0 {
        q
    } else {
        q + 1
    };
    assert(t == error_tenths(errors as nat, calls as nat));
    let whole = (t / 10) as u64;
    let frac = (t % 10) as u64;
    let mut out = decimal_exec(whole);
    push_str(&mut out, ".");
    let last = decimal_exec(frac);
    assert(last@ == seq![digit((t % 10) as nat)]);
    extend(&mut out, &last);
    out
}

/// Aggregate API logs into context events: entries are grouped by
/// `method:path`; each group, in the order its key first appears, gives an
/// ApiEndpoint entity named by its first entry with its number of calls and
/// average response time, and where more than 5% of its calls failed, a flag
/// with a confidence of `calls / 100` clamped to `[0.30, 0.95]`.
pub fn ingest_api_logs(logs: &[ApiLogEntry]) -> (r: Vec<UcmEvent>)
    ensures
        fresh_events(r@),
        payloads(r@) == api_log_payloads(logs@),
{
    let groups = group_logs(logs);
    let ghost n = logs@.len() as int;
    let ghost ks = group_keys(logs@, n);
    let ghost f = endpoint_fn(logs@);
    let mut events: Vec<UcmEvent> = Vec::new();
    let mut g: usize = 0;
    while g < groups.len()
        invariant
            g <= groups.len(),
            n == logs@.len(),
            ks == group_keys(logs@, n),
            f == endpoint_fn(logs@),
            groups_match(groups@, logs@, n),
            fresh_events(events@),
            payloads(events@) == concat_map(ks, f, g as int),
        decreases groups.len() - g,
    {
        let gr = &groups[g];
        let ghost k = ks[g as int];
        assert(gr.key@ == k);
        assert(first_with_key(logs@, k, n) == Some(gr.first as int));
        proof {
            lemma_first_with_key_bound(logs@, k, n);
        }
        let first = &logs[gr.first];
        let ghost before = payloads(events@);
        let calls = gr.calls;
        let errors = gr.errors;
        let avg128: u128 = gr.total_ms / calls as u128;
        assert(avg128 <= 0xFFFF_FFFF_FFFF_FFFFu128) by (nonlinear_arith)
            requires
                avg128 == gr.total_ms / (calls as u128),
                gr.total_ms <= calls * 0xFFFF_FFFF_FFFF_FFFFu64,
                calls >= 1,
        {
            assert(gr.total_ms / (calls as u128) <= (calls * 0xFFFF_FFFF_FFFF_FFFFu64) / (calls as int));
        }
        let avg = avg128 as u64;
        let method = first.method.as_str();
        let path = first.path.as_str();
        let fp = cat2("api/", path);
        let key = string_of(&gr.key);
        let head = cat3(method, " ", path);
        let mut name = chars_of_string(&head);
        push_str(&mut name, " (");
        extend(&mut name, &decimal_exec(calls as u64));
        push_str(&mut name, " calls, ");
        extend(&mut name, &decimal_exec(avg));
        push_str(&mut name, "ms avg)");
        let handler = match &first.handler {
            Some(h) => h.clone(),
            None => "unknown".to_string(),
        };
        let p1 = EventPayload::EntityDiscovered {
            entity_id: EntityId::local(fp.as_str(), key.as_str()),
            kind: EntityKind::ApiEndpoint {
                method: method.to_string(),
                route: path.to_string(),
                handler,
            },
            name: string_of(&name),
            file_path: fp.clone(),
            language: "api".to_string(),
            source: DiscoverySource::ApiTraffic,
            line_range: None,
        };
        let ghost ep = endpoint_payloads(logs@, k);
        assert(f(k) == ep);
        assert(logs@[gr.first as int] == *first);
        assert(p1@ == ep[0]);
        push_event(&mut events, p1);
        if errors as u128 * 20 > calls as u128 {
            let pct = percent_text_exec(errors, calls);
            let mut claimed = copy(&pct);
            push_str(&mut claimed, "% error rate");
            let mut sources: Vec<ConflictSource> = Vec::new();
            sources.push(
                ConflictSource {
                    source_type: "api-logs".to_string(),
                    claimed_value: string_of(&claimed),
                    confidence: traffic_confidence_exec(calls),
                },
            );
            let mut desc = chars_of("Endpoint ");
            push_str(&mut desc, head.as_str());
            push_str(&mut desc, " has ");
            extend(&mut desc, &pct);
            push_str(&mut desc, "% error rate over ");
            extend(&mut desc, &decimal_exec(calls as u64));
            push_str(&mut desc, " calls");
            let p2 = EventPayload::ConflictFlagged {
                entity_id: EntityId::local(fp.as_str(), key.as_str()),
                conflict_type: ConflictType::RequirementDrift,
                sources,
                description: string_of(&desc),
            };
            assert(conflict_views(sources@) =~= seq![
                ConflictSourceView {
                    source_type: "api-logs"@,
                    claimed_value: percent_text(errors as nat, calls as nat) + "% error rate"@,
                    confidence: traffic_confidence(calls as nat),
                },
            ]);
            assert(p2@ == ep[1]);
            assert(ep.len() == 2);
            push_event(&mut events, p2);
        } else {
            assert(ep.len() == 1);
        }
        assert(payloads(events@) =~= before + f(k));
        assert(concat_map(ks, f, g + 1) == concat_map(ks, f, g as int) + f(ks[g as int]));
        g += 1;
    }
    events
}

/// The first entry with a key is one of the entries.
proof fn lemma_first_with_key_bound(logs: Seq<ApiLogEntry>, k: Seq<char>, n: int)
    ensures
        first_with_key(logs, k, n) matches Some(i) ==> 0 <= i < n && log_key(logs[i]) == k,
    decreases n,
{
    if n > 0 && n <= logs.len() {
        lemma_first_with_key_bound(logs, k, n - 1);
    }
}

} // verus!
