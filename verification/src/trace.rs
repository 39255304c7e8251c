//! Decision traces: a structured record of every reasoning decision, from
//! the event that triggered it to the summary it produced, kept in an
//! in-memory store.
use vstd::prelude::*;

use std::collections::HashMap;

use crate::clock::{new_event_id, now_millis};
use crate::entity::{id_views, EntityId};
use crate::text::{chars_of, decimal, decimal_exec, extend, join, join_exec, push_str, str_debug, str_debug_text, string_of, vviews};

verus! {

broadcast use vstd::string::group_string_axioms;

/// A recorded reasoning decision: the unit of auditability.
#[derive(Debug, Clone)]
pub struct DecisionTrace {
    /// Unique trace identifier (a UUID as its 128-bit value)
    pub trace_id: u128,
    /// When the decision was made (milliseconds since the Unix epoch)
    pub timestamp: i64,
    /// The event that triggered the reasoning
    pub trigger_event_id: u128,
    /// A digest of the graph state at decision time
    pub graph_state_hash: String,
    /// The entities analyzed
    pub analyzed_entities: Vec<String>,
    /// The reasoning steps taken
    pub reasoning_steps: Vec<TraceStep>,
    /// Final output summary
    pub output_summary: String,
    /// How long the decision took
    pub duration_ms: u64,
}

/// One step of a decision. Confidence in millionths.
#[derive(Debug, Clone)]
pub struct TraceStep {
    pub step: usize,
    pub operation: String,
    pub input: String,
    pub output: String,
    pub confidence: u32,
    pub timestamp: i64,
}

/// The identifiers of some traces, in order.
pub open spec fn trace_ids(v: Seq<DecisionTrace>) -> Seq<u128> {
    v.map_values(|t: DecisionTrace| t.trace_id)
}

/// The last position among the first `n` identifiers that holds `id`.
pub open spec fn last_position(ids: Seq<u128>, id: u128, n: int) -> Option<int>
    decreases n,
{
    if n <= 0 || n > ids.len() {
        None
    } else if ids[n - 1] == id {
        Some(n - 1)
    } else {
        last_position(ids, id, n - 1)
    }
}

/// The traces among the first `n` with a trigger, in order.
pub open spec fn triggered_by(v: Seq<DecisionTrace>, trigger: u128, n: int) -> Seq<DecisionTrace>
    decreases n,
{
    if n <= 0 || n > v.len() {
        seq![]
    } else {
        triggered_by(v, trigger, n - 1) + if v[n - 1].trigger_event_id == trigger {
            seq![v[n - 1]]
        } else {
            seq![]
        }
    }
}

/// The values behind some references.
pub open spec fn trace_derefs(v: Seq<&DecisionTrace>) -> Seq<DecisionTrace> {
    v.map_values(|t: &DecisionTrace| *t)
}

/// A found position is a position of the identifier.
proof fn lemma_last_position_bound(ids: Seq<u128>, id: u128, n: int)
    ensures
        last_position(ids, id, n) matches Some(p) ==> 0 <= p < n && p < ids.len() && ids[p] == id,
    decreases n,
{
    if n > 0 && n <= ids.len() {
        lemma_last_position_bound(ids, id, n - 1);
    }
}

/// Extending a sequence leaves the last positions among its first `n` identifiers.
proof fn lemma_last_position_prefix(a: Seq<u128>, b: Seq<u128>, id: u128, n: int)
    requires
        0 <= n <= a.len(),
        a.len() <= b.len(),
        forall|j: int| 0 <= j < a.len() ==> #[trigger] b[j] == a[j],
    ensures
        last_position(b, id, n) == last_position(a, id, n),
    decreases n,
{
    if n > 0 {
        lemma_last_position_prefix(a, b, id, n - 1);
    }
}

/// In-memory trace storage.
pub struct TraceStore {
    traces: Vec<DecisionTrace>,
    index: HashMap<u128, usize>,
}

impl TraceStore {
    /// The traces recorded, in order.
    pub closed spec fn log(&self) -> Seq<DecisionTrace> {
        self.traces@
    }

    /// The index names, for each identifier, its last recorded trace.
    pub closed spec fn wf(&self) -> bool {
        let ids = trace_ids(self.traces@);
        &&& forall|id: u128|
            #[trigger] self.index@.contains_key(id) <==> last_position(ids, id, ids.len() as int) is Some
        &&& forall|id: u128|
            #[trigger] self.index@.contains_key(id) ==> last_position(ids, id, ids.len() as int) == Some(
                self.index@[id] as int,
            )
    }

    /// An empty store.
    pub fn new() -> (r: Self)
        ensures
            r.wf(),
            r.log() == Seq::<DecisionTrace>::empty(),
    {
        TraceStore { traces: Vec::new(), index: HashMap::new() }
    }

    /// Record a decision trace.
    pub fn record(&mut self, trace: DecisionTrace)
        requires
            old(self).wf(),
        ensures
            final(self).wf(),
            final(self).log() == old(self).log().push(trace),
    {
        broadcast use vstd::std_specs::hash::group_hash_axioms;

        let ghost ids0 = trace_ids(self.traces@);
        let ghost n0 = ids0.len() as int;
        let pos = self.traces.len();
        self.index.insert(trace.trace_id, pos);
        let ghost t = trace;
        self.traces.push(trace);
        proof {
            let ids1 = trace_ids(self.traces@);
            assert(ids1 =~= ids0.push(t.trace_id));
            assert forall|j: int| 0 <= j < n0 implies #[trigger] ids1[j] == ids0[j] by {}
            assert forall|id: u128| #[trigger] last_position(ids1, id, n0 + 1) == (if id == t.trace_id {
                Some(n0)
            } else {
                last_position(ids0, id, n0)
            }) by {
                if id != t.trace_id {
                    lemma_last_position_prefix(ids0, ids1, id, n0);
                }
            }
        }
    }

    /// The trace recorded under an identifier (the last one recorded with it).
    pub fn get(&self, id: &u128) -> (r: Option<&DecisionTrace>)
        requires
            self.wf(),
        ensures
            r matches Some(t) ==> last_position(trace_ids(self.log()), *id, self.log().len() as int) matches Some(
                p,
            ) && *t == self.log()[p],
            r is None ==> last_position(trace_ids(self.log()), *id, self.log().len() as int) is None,
    {
        broadcast use vstd::std_specs::hash::group_hash_axioms;

        match self.index.get(id) {
            Some(pos) => {
                proof {
                    lemma_last_position_bound(trace_ids(self.traces@), *id, self.traces@.len() as int);
                }
                Some(&self.traces[*pos])
            },
            None => None,
        }
    }

    /// Every trace, most recent first.
    pub fn all(&self) -> (r: Vec<&DecisionTrace>)
        ensures
            trace_derefs(r@) == self.log().reverse(),
    {
        let mut out: Vec<&DecisionTrace> = Vec::new();
        let mut i: usize = self.traces.len();
        while i > 0
            invariant
                i <= self.traces.len(),
                trace_derefs(out@) == self.traces@.subrange(i as int, self.traces@.len() as int).reverse(),
            decreases i,
        {
            i -= 1;
            let ghost prev = out@;
            out.push(&self.traces[i]);
            assert(trace_derefs(out@) =~= trace_derefs(prev).push(self.traces@[i as int]));
            assert(self.traces@.subrange(i as int, self.traces@.len() as int).reverse() =~= self.traces@.subrange(
                i + 1,
                self.traces@.len() as int,
            ).reverse().push(self.traces@[i as int]));
        }
        assert(self.traces@.subrange(0, self.traces@.len() as int) =~= self.traces@);
        out
    }

    /// The traces of one trigger event, in the order recorded.
    pub fn by_trigger(&self, trigger_id: &u128) -> (r: Vec<&DecisionTrace>)
        ensures
            trace_derefs(r@) == triggered_by(self.log(), *trigger_id, self.log().len() as int),
    {
        let mut out: Vec<&DecisionTrace> = Vec::new();
        let mut i: usize = 0;
        while i < self.traces.len()
            invariant
                i <= self.traces.len(),
                trace_derefs(out@) == triggered_by(self.traces@, *trigger_id, i as int),
            decreases self.traces.len() - i,
        {
            let t = &self.traces[i];
            let ghost prev = out@;
            if t.trigger_event_id == *trigger_id {
                out.push(t);
                assert(trace_derefs(out@) =~= trace_derefs(prev) + seq![*t]);
            } else {
                assert(trace_derefs(out@) =~= trace_derefs(prev) + seq![]);
            }
            i += 1;
        }
        out
    }

    /// The number of traces recorded.
    pub fn len(&self) -> (r: usize)
        ensures
            r == self.log().len(),
    {
        self.traces.len()
    }

    /// Whether no trace has been recorded.
    pub fn is_empty(&self) -> (r: bool)
        ensures
            r == (self.log().len() == 0),
    {
        self.traces.len() == 0
    }
}

impl Default for TraceStore {
    /// An empty store.
    fn default() -> (r: Self)
        ensures
            r.wf(),
            r.log() == Seq::<DecisionTrace>::empty(),
    {
        TraceStore::new()
    }
}

/// The logs of a store through a run of `record` calls: each state is the
/// one before with the next trace appended.
pub open spec fn record_run(states: Seq<Seq<DecisionTrace>>, ts: Seq<DecisionTrace>) -> bool {
    &&& states.len() == ts.len() + 1
    &&& forall|i: int| 0 <= i < ts.len() ==> #[trigger] states[i + 1] == states[i].push(ts[i])
}

/// After `record(t1)`, …, `record(tn)` on a store that started empty, the
/// log holds exactly `t1, …, tn`, so `all` lists every recorded trace once,
/// most recent first.
pub proof fn all_lists_records_newest_first(states: Seq<Seq<DecisionTrace>>, ts: Seq<DecisionTrace>)
    requires
        record_run(states, ts),
        states[0] == Seq::<DecisionTrace>::empty(),
    ensures
        states.last() == ts,
        states.last().reverse() == ts.reverse(),
        forall|i: int| 0 <= i < ts.len() ==> #[trigger] states.last().reverse()[i] == ts[ts.len() - 1 - i],
    decreases ts.len(),
{
    if ts.len() > 0 {
        let n = ts.len() - 1;
        let sp = states.take(n + 1);
        assert forall|i: int| 0 <= i < ts.drop_last().len() implies #[trigger] sp[i + 1] == sp[i].push(
            ts.drop_last()[i],
        ) by {
            assert(states[i + 1] == states[i].push(ts[i]));
        }
        all_lists_records_newest_first(sp, ts.drop_last());
        assert(states[n + 1] == states[n].push(ts[n]));
        assert(sp.last() == states[n]);
        assert(states.last() =~= ts);
    }
}

/// A recorded trace is found again under its identifier, and every trace
/// recorded before stays as it was.
pub proof fn recorded_trace_is_found(before: TraceStore, after: TraceStore, t: DecisionTrace)
    requires
        after.log() == before.log().push(t),
    ensures
        last_position(trace_ids(after.log()), t.trace_id, after.log().len() as int) == Some(
            before.log().len() as int,
        ),
        after.log()[before.log().len() as int] == t,
        after.log().take(before.log().len() as int) == before.log(),
{
    assert(trace_ids(after.log())[before.log().len() as int] == t.trace_id);
    assert(after.log().take(before.log().len() as int) =~= before.log());
}

/// A step as plain values: number, operation, input, output, confidence, time.
pub open spec fn trace_step_view(s: TraceStep) -> (usize, Seq<char>, Seq<char>, Seq<char>, u32, i64) {
    (s.step, s.operation@, s.input@, s.output@, s.confidence, s.timestamp)
}

/// The views of some steps.
pub open spec fn trace_step_views(v: Seq<TraceStep>) -> Seq<(usize, Seq<char>, Seq<char>, Seq<char>, u32, i64)> {
    v.map_values(|s: TraceStep| trace_step_view(s))
}

/// `{:?}` of the identifiers' texts: each quoted and escaped, in brackets,
/// separated by commas.
pub open spec fn change_set_text(ids: Seq<Seq<char>>) -> Seq<char> {
    "["@ + join(ids.map_values(|s: Seq<char>| str_debug(s)), ", "@) + "]"@
}

/// The three steps of an impact analysis, all at time `now`.
pub open spec fn analysis_steps(
    graph_entity_count: usize,
    changed: Seq<Seq<char>>,
    direct_count: usize,
    indirect_count: usize,
    not_impacted_count: usize,
    now: i64,
) -> Seq<(usize, Seq<char>, Seq<char>, Seq<char>, u32, i64)> {
    seq![
        (
            1usize,
            "enumerate_changes"@,
            decimal(changed.len()) + " entities changed"@,
            "Change set: "@ + change_set_text(changed),
            1_000_000u32,
            now,
        ),
        (
            2usize,
            "reverse_bfs"@,
            "Graph with "@ + decimal(graph_entity_count as nat) + " entities"@,
            decimal(direct_count as nat) + " direct + "@ + decimal(indirect_count as nat) + " indirect impacts found"@,
            950_000u32,
            now,
        ),
        (
            3usize,
            "classify_not_impacted"@,
            decimal(not_impacted_count as nat) + " remaining entities"@,
            decimal(not_impacted_count as nat) + " entities determined not impacted with explanations"@,
            900_000u32,
            now,
        ),
    ]
}

/// The summary of an impact analysis.
pub open spec fn analysis_summary(direct_count: usize, indirect_count: usize, not_impacted_count: usize) -> Seq<char> {
    "Impact analysis: "@ + decimal(direct_count as nat) + " direct, "@ + decimal(indirect_count as nat)
        + " indirect, "@ + decimal(not_impacted_count as nat) + " not impacted"@
}

/// Build the decision trace of an impact analysis run: three steps
/// (enumerating the changes, the reverse traversal, the classification of
/// what is not impacted), a fresh trace identifier, and the current time on
/// the trace and on each step.
pub fn trace_impact_analysis(
    trigger_event_id: u128,
    graph_entity_count: usize,
    changed_entities: &[EntityId],
    direct_count: usize,
    indirect_count: usize,
    not_impacted_count: usize,
    duration_ms: u64,
) -> (r: DecisionTrace)
    ensures
        r.trigger_event_id == trigger_event_id,
        r.graph_state_hash@ == "entities:"@ + decimal(graph_entity_count as nat),
        crate::text::views(r.analyzed_entities@) == id_views(changed_entities@),
        trace_step_views(r.reasoning_steps@) == analysis_steps(
            graph_entity_count,
            id_views(changed_entities@),
            direct_count,
            indirect_count,
            not_impacted_count,
            r.timestamp,
        ),
        r.output_summary@ == analysis_summary(direct_count, indirect_count, not_impacted_count),
        r.duration_ms == duration_ms,
{
    let now = now_millis();
    let ghost ids = id_views(changed_entities@);
    let mut quoted: Vec<Vec<char>> = Vec::new();
    let mut names: Vec<String> = Vec::new();
    let mut i: usize = 0;
    while i < changed_entities.len()
        invariant
            i <= changed_entities.len(),
            ids == id_views(changed_entities@),
            vviews(quoted@) == ids.take(i as int).map_values(|s: Seq<char>| str_debug(s)),
            crate::text::views(names@) == ids.take(i as int),
        decreases changed_entities.len() - i,
    {
        let id = &changed_entities[i];
        let q = str_debug_text(id.as_str());
        let qc = chars_of(q.as_str());
        let ghost pq = vviews(quoted@);
        let ghost pn = crate::text::views(names@);
        quoted.push(qc);
        let t = id.to_text();
        names.push(t);
        assert(vviews(quoted@) =~= pq.push(qc@));
        assert(crate::text::views(names@) =~= pn.push(t@));
        assert(ids[i as int] == changed_entities@[i as int]@);
        assert(ids.take(i + 1) =~= ids.take(i as int).push(ids[i as int]));
        assert(ids.take(i + 1).map_values(|s: Seq<char>| str_debug(s)) =~= ids.take(i as int).map_values(
            |s: Seq<char>| str_debug(s),
        ).push(str_debug(ids[i as int])));
        i += 1;
    }
    assert(ids.take(ids.len() as int) =~= ids);
    let sep = chars_of(", ");
    let joined = join_exec(&quoted, &sep);
    let mut out1 = chars_of("Change set: ");
    push_str(&mut out1, "[");
    extend(&mut out1, &joined);
    push_str(&mut out1, "]");
    let mut in1 = decimal_exec(changed_entities.len() as u64);
    push_str(&mut in1, " entities changed");
    let mut in2 = chars_of("Graph with ");
    extend(&mut in2, &decimal_exec(graph_entity_count as u64));
    push_str(&mut in2, " entities");
    let mut out2 = decimal_exec(direct_count as u64);
    push_str(&mut out2, " direct + ");
    extend(&mut out2, &decimal_exec(indirect_count as u64));
    push_str(&mut out2, " indirect impacts found");
    let mut in3 = decimal_exec(not_impacted_count as u64);
    push_str(&mut in3, " remaining entities");
    let mut out3 = decimal_exec(not_impacted_count as u64);
    push_str(&mut out3, " entities determined not impacted with explanations");
    let mut steps: Vec<TraceStep> = Vec::new();
    steps.push(
        TraceStep {
            step: 1,
            operation: "enumerate_changes".to_string(),
            input: string_of(&in1),
            output: string_of(&out1),
            confidence: 1_000_000,
            timestamp: now,
        },
    );
    steps.push(
        TraceStep {
            step: 2,
            operation: "reverse_bfs".to_string(),
            input: string_of(&in2),
            output: string_of(&out2),
            confidence: 950_000,
            timestamp: now,
        },
    );
    steps.push(
        TraceStep {
            step: 3,
            operation: "classify_not_impacted".to_string(),
            input: string_of(&in3),
            output: string_of(&out3),
            confidence: 900_000,
            timestamp: now,
        },
    );
    let mut hash = chars_of("entities:");
    extend(&mut hash, &decimal_exec(graph_entity_count as u64));
    let mut summary = chars_of("Impact analysis: ");
    extend(&mut summary, &decimal_exec(direct_count as u64));
    push_str(&mut summary, " direct, ");
    extend(&mut summary, &decimal_exec(indirect_count as u64));
    push_str(&mut summary, " indirect, ");
    extend(&mut summary, &decimal_exec(not_impacted_count as u64));
    push_str(&mut summary, " not impacted");
    assert(ids.len() == changed_entities@.len());
    assert(out1@ =~= "Change set: "@ + change_set_text(ids));
    let r = DecisionTrace {
        trace_id: new_event_id(),
        timestamp: now,
        trigger_event_id,
        graph_state_hash: string_of(&hash),
        analyzed_entities: names,
        reasoning_steps: steps,
        output_summary: string_of(&summary),
        duration_ms,
    };
    assert(trace_step_views(r.reasoning_steps@) =~= analysis_steps(
        graph_entity_count,
        ids,
        direct_count,
        indirect_count,
        not_impacted_count,
        now,
    ));
    r
}

} // verus!
