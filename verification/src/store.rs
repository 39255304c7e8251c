//! Append-only in-memory event store: append, replay, lookup by identifier,
//! streams by file path, and checkpoint-based resume.
use vstd::prelude::*;

use std::collections::HashMap;

use crate::entity::id_file_path;
use crate::event::{payloads, EventPayload, PayloadView, UcmEvent};
use crate::keyed::{lemma_deep_view_finite, lists_insert, lists_remove};
use crate::projection::{no_facts, replay_facts, replay_splits};

verus! {

broadcast use vstd::string::group_string_axioms;

/// The stream an event belongs to: the file path of a discovered entity, of
/// a change, or of a removed entity's identifier; others belong to none.
pub open spec fn stream_key(p: PayloadView) -> Option<Seq<char>> {
    match p {
        PayloadView::EntityDiscovered { file_path, .. } => Some(file_path),
        PayloadView::ChangeDetected { file_path, .. } => Some(file_path),
        PayloadView::EntityRemoved { entity_id, .. } => id_file_path(entity_id),
        _ => None,
    }
}

/// The positions among the first `n` events that belong to stream `k`, in order.
pub open spec fn stream_positions(log: Seq<UcmEvent>, k: Seq<char>, n: int) -> Seq<usize>
    decreases n,
{
    if n <= 0 || n > log.len() {
        seq![]
    } else {
        stream_positions(log, k, n - 1) + if stream_key(log[n - 1].payload@) == Some(k) {
            seq![(n - 1) as usize]
        } else {
            seq![]
        }
    }
}

/// The last position among the first `n` events with an identifier.
pub open spec fn last_with_id(log: Seq<UcmEvent>, id: u128, n: int) -> Option<int>
    decreases n,
{
    if n <= 0 || n > log.len() {
        None
    } else if log[n - 1].event_id == id {
        Some(n - 1)
    } else {
        last_with_id(log, id, n - 1)
    }
}

/// The event stored under an identifier: the last one appended with it.
pub open spec fn event_with_id(log: Seq<UcmEvent>, id: u128) -> Option<int> {
    last_with_id(log, id, log.len() as int)
}

/// The events among the first `n` at or after a time, in order.
pub open spec fn since(log: Seq<UcmEvent>, t: i64, n: int) -> Seq<UcmEvent>
    decreases n,
{
    if n <= 0 || n > log.len() {
        seq![]
    } else {
        since(log, t, n - 1) + if log[n - 1].timestamp >= t {
            seq![log[n - 1]]
        } else {
            seq![]
        }
    }
}

/// The causation chain from an event, following causes at most `fuel` times:
/// the positions of the event, its cause, its cause's cause, and so on.
pub open spec fn chain_from(log: Seq<UcmEvent>, id: u128, fuel: nat) -> Seq<int>
    decreases fuel,
{
    if fuel == 0 {
        seq![]
    } else {
        match event_with_id(log, id) {
            None => seq![],
            Some(p) => seq![p] + match log[p].causation_id {
                Some(c) => chain_from(log, c, (fuel - 1) as nat),
                None => seq![],
            },
        }
    }
}

/// Following causes from an event reaches, within `fuel` steps, an event
/// without a cause or an identifier not in the log.
pub open spec fn chain_ends(log: Seq<UcmEvent>, id: u128, fuel: nat) -> bool
    decreases fuel,
{
    match event_with_id(log, id) {
        None => true,
        Some(p) => fuel > 0 && match log[p].causation_id {
            None => true,
            Some(c) => chain_ends(log, c, (fuel - 1) as nat),
        },
    }
}

/// The events of some positions of the log, in order.
pub open spec fn at_positions(log: Seq<UcmEvent>, ps: Seq<int>) -> Seq<UcmEvent> {
    ps.map_values(|p: int| log[p])
}

/// The values behind a sequence of references.
pub open spec fn derefs(v: Seq<&UcmEvent>) -> Seq<UcmEvent> {
    v.map_values(|e: &UcmEvent| *e)
}

/// Append-only event store.
pub struct EventStore {
    /// All events, in the order appended
    events: Vec<UcmEvent>,
    /// Event identifier → position of the last event appended with it
    id_index: HashMap<u128, usize>,
    /// Stream (file path) → positions of its events
    stream_index: HashMap<String, Vec<usize>>,
    /// Position up to which events have been processed
    checkpoint: usize,
}

impl EventStore {
    /// The events, in the order appended.
    pub closed spec fn log(&self) -> Seq<UcmEvent> {
        self.events@
    }

    /// The checkpoint: how many events have been processed.
    pub closed spec fn checkpoint_at(&self) -> nat {
        self.checkpoint as nat
    }

    /// The indexes agree with the log.
    pub closed spec fn wf(&self) -> bool {
        let log = self.events@;
        let n = log.len() as int;
        &&& self.checkpoint <= log.len()
        &&& forall|id: u128|
            #[trigger] self.id_index@.contains_key(id) <==> event_with_id(log, id) is Some
        &&& forall|id: u128|
            #[trigger] self.id_index@.contains_key(id) ==> event_with_id(log, id) == Some(
                self.id_index@[id] as int,
            )
        &&& forall|k: Seq<char>|
            #[trigger] self.stream_index.deep_view().contains_key(k)
                ==> self.stream_index.deep_view()[k] == stream_positions(log, k, n)
        &&& forall|k: Seq<char>|
            !(#[trigger] self.stream_index.deep_view().contains_key(k))
                ==> stream_positions(log, k, n) == Seq::<usize>::empty()
    }

    /// An empty store.
    pub fn new() -> (r: Self)
        ensures
            r.wf(),
            r.log() == Seq::<UcmEvent>::empty(),
            r.checkpoint_at() == 0,
    {
        let s = EventStore {
            events: Vec::new(),
            id_index: HashMap::new(),
            stream_index: HashMap::new(),
            checkpoint: 0,
        };
        proof {
            vstd::std_specs::hash::lemma_hashmap_deepview_dom(s.stream_index);
            assert(s.stream_index.deep_view().dom() =~= Set::<Seq<char>>::empty());
        }
        s
    }

    /// The stream an event belongs to.
    fn extract_stream_key(payload: &EventPayload) -> (r: Option<String>)
        requires
        ensures
            r matches Some(k) ==> stream_key(payload@) == Some(k@),
            r is None ==> stream_key(payload@) is None,
    {
        match payload {
            EventPayload::EntityDiscovered { file_path, .. } => Some(file_path.clone()),
            EventPayload::ChangeDetected { file_path, .. } => Some(file_path.clone()),
            EventPayload::EntityRemoved { entity_id, .. } => match entity_id.file_path() {
                Some(p) => Some(p.to_string()),
                None => None,
            },
            _ => None,
        }
    }

    /// Append an event to the log; events are immutable once appended.
    pub fn append(&mut self, event: UcmEvent)
        requires
            old(self).wf(),
        ensures
            final(self).wf(),
            final(self).log() == old(self).log().push(event),
            final(self).checkpoint_at() == old(self).checkpoint_at(),
    {
        broadcast use vstd::std_specs::hash::group_hash_axioms;

        let ghost log0 = self.events@;
        let ghost n0 = log0.len() as int;
        let pos = self.events.len();
        self.id_index.insert(event.event_id, pos);
        let ghost sk = stream_key(event.payload@);
        match Self::extract_stream_key(&event.payload) {
            Some(key) => {
                let mut positions = match lists_remove(&mut self.stream_index, key.as_str()) {
                    Some(v) => v,
                    None => Vec::new(),
                };
                positions.push(pos);
                lists_insert(&mut self.stream_index, key, positions);
            },
            None => {},
        }
        let ghost e = event;
        self.events.push(event);
        proof {
            let log1 = self.events@;
            assert(log1 =~= log0.push(e));
            assert forall|j: int| 0 <= j < n0 implies #[trigger] log1[j] == log0[j] by {}
            assert forall|id: u128| #[trigger] event_with_id(log1, id) == (if id == e.event_id {
                Some(n0)
            } else {
                event_with_id(log0, id)
            }) by {
                assert(log1[n0] == e);
                if id != e.event_id {
                    lemma_last_with_id_prefix(log0, log1, id, n0);
                }
            }
            assert forall|k: Seq<char>| #[trigger] stream_positions(log1, k, n0 + 1) == if sk == Some(k) {
                stream_positions(log0, k, n0).push(pos)
            } else {
                stream_positions(log0, k, n0)
            } by {
                lemma_stream_positions_prefix(log0, log1, k, n0);
                assert(log1[n0] == e);
            }
        }
    }

    /// Append a batch of events, in order.
    pub fn append_batch(&mut self, events: Vec<UcmEvent>)
        requires
            old(self).wf(),
        ensures
            final(self).wf(),
            final(self).log() == old(self).log() + events@,
            final(self).checkpoint_at() == old(self).checkpoint_at(),
    {
        let ghost log0 = self.log();
        let ghost evs = events@;
        assert(events.len() == evs.len());
        let mut rest = events;
        let mut i: usize = 0;
        while rest.len() > 0
            invariant
                evs.len() <= usize::MAX,
                self.wf(),
                self.checkpoint_at() == old(self).checkpoint_at(),
                i + rest@.len() == evs.len(),
                rest@ == evs.subrange(i as int, evs.len() as int),
                self.log() == log0 + evs.take(i as int),
            decreases rest@.len(),
        {
            let e = rest.remove(0);
            assert(e == evs[i as int]);
            self.append(e);
            assert(evs.take(i + 1) =~= evs.take(i as int).push(e));
            assert(log0 + evs.take(i + 1) =~= (log0 + evs.take(i as int)).push(e));
            assert(rest@ =~= evs.subrange(i + 1, evs.len() as int));
            i += 1;
        }
        assert(evs.take(evs.len() as int) =~= evs);
    }
    /// The event stored under an identifier (the last one appended with it).
    pub fn get_by_id(&self, id: &u128) -> (r: Option<&UcmEvent>)
        requires
            self.wf(),
        ensures
            r matches Some(e) ==> event_with_id(self.log(), *id) matches Some(p) && *e == self.log()[p],
            r is None ==> event_with_id(self.log(), *id) is None,
    {
        broadcast use vstd::std_specs::hash::group_hash_axioms;

        match self.id_index.get(id) {
            Some(pos) => {
                proof {
                    lemma_last_with_id_bound(self.events@, *id, self.events@.len() as int);
                }
                Some(&self.events[*pos])
            },
            None => None,
        }
    }

    /// Replay all events from the beginning, or those at or after a time
    /// (milliseconds since the Unix epoch), in the order appended.
    pub fn replay(&self, from: Option<i64>) -> (r: Vec<&UcmEvent>)
        requires
            self.wf(),
        ensures
            derefs(r@) == match from {
                Some(t) => since(self.log(), t, self.log().len() as int),
                None => self.log(),
            },
    {
        let mut out: Vec<&UcmEvent> = Vec::new();
        let mut i: usize = 0;
        while i < self.events.len()
            invariant
                i <= self.events.len(),
                derefs(out@) == match from {
                    Some(t) => since(self.events@, t, i as int),
                    None => self.events@.take(i as int),
                },
            decreases self.events.len() - i,
        {
            let e = &self.events[i];
            let ghost prev = derefs(out@);
            let keep = match from {
                Some(t) => e.timestamp >= t,
                None => true,
            };
            if keep {
                out.push(e);
                assert(derefs(out@) =~= prev.push(*e));
            }
            assert(self.events@.take(i + 1) =~= self.events@.take(i as int).push(*e));
            assert(derefs(out@) =~= match from {
                Some(t) => since(self.events@, t, i + 1),
                None => self.events@.take(i + 1),
            });
            i += 1;
        }
        assert(self.events@.take(self.events.len() as int) =~= self.events@);
        out
    }

    /// The events appended since the checkpoint (for incremental projection).
    pub fn events_since_checkpoint(&self) -> (r: &[UcmEvent])
        requires
            self.wf(),
        ensures
            r@ == self.log().subrange(self.checkpoint_at() as int, self.log().len() as int),
    {
        let (_, rest) = self.events.as_slice().split_at(self.checkpoint);
        rest
    }

    /// Advance the checkpoint to the end of the log.
    pub fn advance_checkpoint(&mut self)
        requires
            old(self).wf(),
        ensures
            final(self).wf(),
            final(self).log() == old(self).log(),
            final(self).checkpoint_at() == old(self).log().len(),
    {
        self.checkpoint = self.events.len();
    }

    /// The events of a stream (file path), in the order appended.
    pub fn stream(&self, stream_key: &str) -> (r: Vec<&UcmEvent>)
        requires
            self.wf(),
        ensures
            derefs(r@) == at_positions(
                self.log(),
                stream_positions(self.log(), stream_key@, self.log().len() as int).map_values(
                    |p: usize| p as int,
                ),
            ),
    {
        let ghost log = self.events@;
        let ghost n = log.len() as int;
        let ghost ps = stream_positions(log, stream_key@, n);
        proof {
            lemma_stream_positions_bound(log, stream_key@, n);
        }
        let positions: Vec<usize> = match crate::keyed::lists_get(&self.stream_index, stream_key) {
            Some(v) => v,
            None => Vec::new(),
        };
        assert(positions@ == ps);
        let mut out: Vec<&UcmEvent> = Vec::new();
        let mut i: usize = 0;
        while i < positions.len()
            invariant
                i <= positions.len(),
                positions@ == ps,
                log == self.events@,
                forall|j: int| 0 <= j < ps.len() ==> #[trigger] ps[j] < log.len(),
                derefs(out@) == at_positions(log, ps.map_values(|p: usize| p as int).take(i as int)),
            decreases positions.len() - i,
        {
            let p = positions[i];
            let ghost prev = derefs(out@);
            out.push(&self.events[p]);
            assert(derefs(out@) =~= prev.push(log[p as int]));
            assert(ps.map_values(|p: usize| p as int).take(i + 1) =~= ps.map_values(
                |p: usize| p as int,
            ).take(i as int).push(p as int));
            assert(at_positions(log, ps.map_values(|p: usize| p as int).take(i + 1)) =~= at_positions(
                log,
                ps.map_values(|p: usize| p as int).take(i as int),
            ).push(log[p as int]));
            i += 1;
        }
        assert(ps.map_values(|p: usize| p as int).take(positions.len() as int) =~= ps.map_values(
            |p: usize| p as int,
        ));
        out
    }

    /// The number of events in the log.
    pub fn len(&self) -> (r: usize)
        ensures
            r == self.log().len(),
    {
        self.events.len()
    }

    /// Whether the log is empty.
    pub fn is_empty(&self) -> (r: bool)
        ensures
            r == (self.log().len() == 0),
    {
        self.events.len() == 0
    }

    /// The causation chain of an event, root cause first: the event, its
    /// cause, its cause's cause and so on, until an event without a cause or
    /// a cause not in the log, then reversed. The chain must end (a cycle of
    /// causes never does).
    pub fn causation_chain(&self, event_id: &u128) -> (r: Vec<&UcmEvent>)
        requires
            self.wf(),
            exists|k: nat| chain_ends(self.log(), *event_id, k),
        ensures
            derefs(r@) == at_positions(
                self.log(),
                chain_from(
                    self.log(),
                    *event_id,
                    choose|k: nat| chain_ends(self.log(), *event_id, k),
                ),
            ).reverse(),
    {
        let ghost log = self.events@;
        let ghost k0 = choose|k: nat| chain_ends(log, *event_id, k);
        let ghost whole = chain_from(log, *event_id, k0);
        let mut chain: Vec<&UcmEvent> = Vec::new();
        let mut current: Option<u128> = Some(*event_id);
        let ghost mut fuel: nat = k0;
        let ghost mut done: Seq<int> = seq![];
        loop
            invariant
                self.wf(),
                log == self.events@,
                chain_ends(log, *event_id, k0),
                whole == chain_from(log, *event_id, k0),
                derefs(chain@) == at_positions(log, done),
                match current {
                    Some(c) => chain_ends(log, c, fuel) && whole == done + chain_from(log, c, fuel),
                    None => whole == done,
                },
            ensures
                derefs(chain@) == at_positions(log, whole),
            decreases fuel,
        {
            let id = match current {
                Some(id) => id,
                None => break,
            };
            match self.get_by_id(&id) {
                Some(ev) => {
                    let ghost p = event_with_id(log, id)->0;
                    proof {
                        lemma_last_with_id_bound(log, id, log.len() as int);
                    }
                    assert(fuel > 0);
                    let ghost prev = derefs(chain@);
                    chain.push(ev);
                    assert(derefs(chain@) =~= prev.push(log[p]));
                    proof {
                        assert(at_positions(log, done.push(p)) =~= at_positions(log, done).push(log[p]));
                        assert(done + chain_from(log, id, fuel) =~= done.push(p) + match log[p].causation_id {
                            Some(c) => chain_from(log, c, (fuel - 1) as nat),
                            None => seq![],
                        });
                        done = done.push(p);
                        fuel = (fuel - 1) as nat;
                    }
                    current = ev.causation_id;
                    if current.is_none() {
                        assert(whole =~= done);
                    }
                },
                None => {
                    assert(chain_from(log, id, fuel) =~= seq![]);
                    assert(whole =~= done);
                    break;
                },
            }
        }
        let mut out: Vec<&UcmEvent> = Vec::new();
        let mut j: usize = chain.len();
        while j > 0
            invariant
                j <= chain.len(),
                derefs(out@) == derefs(chain@).subrange(j as int, chain@.len() as int).reverse(),
            decreases j,
        {
            j -= 1;
            let ghost prev = derefs(out@);
            out.push(chain[j]);
            assert(derefs(chain@).subrange(j as int, chain@.len() as int).reverse() =~= prev.push(
                *chain@[j as int],
            ));
        }
        assert(derefs(chain@).subrange(0, chain@.len() as int) =~= derefs(chain@));
        assert(derefs(out@) =~= at_positions(log, whole).reverse());
        out
    }
}

impl Default for EventStore {
    /// An empty store.
    fn default() -> (r: Self)
        ensures
            r.wf(),
            r.log() == Seq::<UcmEvent>::empty(),
            r.checkpoint_at() == 0,
    {
        EventStore::new()
    }
}

/// The last position with an identifier is one of the first `n`, and holds it.
proof fn lemma_last_with_id_bound(log: Seq<UcmEvent>, id: u128, n: int)
    ensures
        last_with_id(log, id, n) matches Some(p) ==> 0 <= p < n && p < log.len() && log[p].event_id == id,
    decreases n,
{
    if n > 0 && n <= log.len() {
        lemma_last_with_id_bound(log, id, n - 1);
    }
}

/// Stream positions are positions of the first `n` events.
proof fn lemma_stream_positions_bound(log: Seq<UcmEvent>, k: Seq<char>, n: int)
    requires
        n <= log.len(),
    ensures
        forall|j: int| 0 <= j < stream_positions(log, k, n).len() ==> #[trigger] stream_positions(log, k, n)[j] < n,
    decreases n,
{
    if n > 0 {
        lemma_stream_positions_bound(log, k, n - 1);
        let prev = stream_positions(log, k, n - 1);
        assert forall|j: int| 0 <= j < stream_positions(log, k, n).len() implies #[trigger] stream_positions(log, k, n)[j] < n by {
            if j < prev.len() {
                assert(stream_positions(log, k, n)[j] == prev[j]);
            }
        }
    }
}


/// Extending a log leaves the last positions of identifiers among its first `n` events.
proof fn lemma_last_with_id_prefix(log0: Seq<UcmEvent>, log1: Seq<UcmEvent>, id: u128, n: int)
    requires
        0 <= n <= log0.len(),
        log0.len() <= log1.len(),
        forall|j: int| 0 <= j < log0.len() ==> #[trigger] log1[j] == log0[j],
    ensures
        last_with_id(log1, id, n) == last_with_id(log0, id, n),
    decreases n,
{
    if n > 0 {
        lemma_last_with_id_prefix(log0, log1, id, n - 1);
    }
}

/// Extending a log leaves the stream positions among its first `n` events.
proof fn lemma_stream_positions_prefix(log0: Seq<UcmEvent>, log1: Seq<UcmEvent>, k: Seq<char>, n: int)
    requires
        0 <= n <= log0.len(),
        log0.len() <= log1.len(),
        forall|j: int| 0 <= j < log0.len() ==> #[trigger] log1[j] == log0[j],
    ensures
        stream_positions(log1, k, n) == stream_positions(log0, k, n),
    decreases n,
{
    if n > 0 {
        lemma_stream_positions_prefix(log0, log1, k, n - 1);
    }
}

// ─── Laws ──────────────────────────────────────────────────────────

/// An appended event is what a lookup by its identifier finds.
pub proof fn appended_is_found(log: Seq<UcmEvent>, e: UcmEvent)
    ensures
        event_with_id(log.push(e), e.event_id) == Some(log.len() as int),
        log.push(e)[log.len() as int] == e,
{
}

/// Appending leaves every earlier event where it was.
pub proof fn append_keeps_history(log: Seq<UcmEvent>, e: UcmEvent)
    ensures
        log.push(e).take(log.len() as int) == log,
{
    assert(log.push(e).take(log.len() as int) =~= log);
}

/// An appended event about a file joins that file's stream, last, and every
/// other stream stays as it was: a discovered entity's or a detected change's
/// stream is the file it names.
pub proof fn appended_event_joins_its_files_stream(log: Seq<UcmEvent>, e: UcmEvent, f: Seq<char>, other: Seq<char>)
    requires
        (e.payload@ is ChangeDetected && e.payload@->ChangeDetected_file_path == f) || (e.payload@ is EntityDiscovered
            && e.payload@->EntityDiscovered_file_path == f),
        other != f,
    ensures
        stream_positions(log.push(e), f, log.len() as int + 1) == stream_positions(log, f, log.len() as int).push(
            log.len() as usize,
        ),
        stream_positions(log.push(e), other, log.len() as int + 1) == stream_positions(log, other, log.len() as int),
{
    assert forall|j: int| 0 <= j < log.len() implies #[trigger] log.push(e)[j] == log[j] by {}
    lemma_stream_positions_prefix(log, log.push(e), f, log.len() as int);
    lemma_stream_positions_prefix(log, log.push(e), other, log.len() as int);
    assert(log.push(e)[log.len() as int] == e);
    assert(stream_positions(log.push(e), f, log.len() as int + 1) =~= stream_positions(log, f, log.len() as int).push(
        log.len() as usize,
    ));
    assert(stream_positions(log.push(e), other, log.len() as int + 1) =~= stream_positions(log, other, log.len() as int));
}

/// The logs of a store through a run of `append` calls: each state is the
/// one before with the next event appended.
pub open spec fn append_run(states: Seq<Seq<UcmEvent>>, es: Seq<UcmEvent>) -> bool {
    &&& states.len() == es.len() + 1
    &&& forall|i: int| 0 <= i < es.len() ==> #[trigger] states[i + 1] == states[i].push(es[i])
}

/// After `advance_checkpoint` and then `append(e1)`, …, `append(ek)` (which
/// keep the checkpoint), the events since the checkpoint are exactly
/// `e1, …, ek`, in the order appended; none right after the advance.
pub proof fn events_since_checkpoint_are_the_appended(
    states: Seq<Seq<UcmEvent>>,
    es: Seq<UcmEvent>,
    checkpoint: nat,
)
    requires
        append_run(states, es),
        checkpoint == states[0].len(),
    ensures
        states.last().len() == checkpoint + es.len(),
        states.last().subrange(checkpoint as int, states.last().len() as int) == es,
    decreases es.len(),
{
    if es.len() > 0 {
        let n = es.len() - 1;
        let sp = states.take(n + 1);
        assert forall|i: int| 0 <= i < es.drop_last().len() implies #[trigger] sp[i + 1] == sp[i].push(
            es.drop_last()[i],
        ) by {
            assert(states[i + 1] == states[i].push(es[i]));
        }
        events_since_checkpoint_are_the_appended(sp, es.drop_last(), checkpoint);
        assert(states[n + 1] == states[n].push(es[n]));
        assert(sp.last() == states[n]);
        let prev = states[n];
        assert(prev.subrange(checkpoint as int, prev.len() as int) == es.drop_last());
        assert(states.last() == prev.push(es[n]));
        assert(prev.len() == checkpoint + n);
        let last = states.last();
        assert forall|i: int| 0 <= i < es.len() implies last.subrange(checkpoint as int, last.len() as int)[i]
            == es[i] by {
            if i < n {
                assert(last[checkpoint + i] == prev[checkpoint + i]);
                assert(prev.subrange(checkpoint as int, prev.len() as int)[i] == es.drop_last()[i]);
            }
        }
        assert(last.subrange(checkpoint as int, last.len() as int) =~= es);
    } else {
        assert(states.last().subrange(checkpoint as int, states.last().len() as int) =~= es);
    }
}

/// Projecting the events since a checkpoint onto the facts of the events
/// before it gives the facts of replaying the whole log.
pub proof fn checkpoint_resume_agrees(log: Seq<UcmEvent>, c: int)
    requires
        0 <= c <= log.len(),
    ensures
        replay_facts(
            replay_facts(no_facts(), payloads(log.take(c))),
            payloads(log.subrange(c, log.len() as int)),
        ) == replay_facts(no_facts(), payloads(log)),
{
    assert(payloads(log.take(c)) + payloads(log.subrange(c, log.len() as int)) =~= payloads(log));
    replay_splits(no_facts(), payloads(log.take(c)), payloads(log.subrange(c, log.len() as int)));
}

} // verus!
