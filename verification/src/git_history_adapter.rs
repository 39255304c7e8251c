//! Git history adapter: pairs of files that often change together become
//! `CoChanged` edges discovered from historical context.
use vstd::prelude::*;

use crate::edge::RelationType;
use crate::entity::{local_id, DiscoverySource, EntityId, EntityKind, KindView};
use crate::event::{fresh_events, payloads, push_event, EventPayload, PayloadView, UcmEvent};
use crate::source_events::{concat_all, concat_map};
use crate::text::{decimal, decimal_exec, extend, push_str, string_of, views};

verus! {

broadcast use vstd::string::group_string_axioms;

/// A co-change pair mined from git history.
#[derive(Debug, Clone)]
pub struct CoChangeEntry {
    /// First file of the pair
    pub file_a: String,
    /// Second file of the pair
    pub file_b: String,
    /// Number of commits where both files changed together
    pub co_change_count: u32,
    /// ISO timestamp of the most recent co-change
    pub last_seen: String,
}

/// The confidence of a co-change pair, in millionths: `count / 50`, clamped to
/// `[0.20, 0.90]`.
pub open spec fn co_change_confidence(count: u32) -> u32 {
    let c = count * 20_000;
    if c < 200_000 {
        200_000
    } else if c > 900_000 {
        900_000
    } else {
        c as u32
    }
}

/// The module entity of a file seen in git history.
pub open spec fn history_module_payload(file: Seq<char>) -> PayloadView {
    PayloadView::EntityDiscovered {
        entity_id: local_id(file, file),
        kind: KindView::Module { language: "unknown"@, exports: seq![] },
        name: file,
        file_path: file,
        language: "unknown"@,
        source: DiscoverySource::HistoricalContext,
        line_range: None,
    }
}

/// The events of one co-change pair: both files' modules and the edge.
pub open spec fn co_change_payloads(e: CoChangeEntry) -> Seq<PayloadView> {
    seq![
        history_module_payload(e.file_a@),
        history_module_payload(e.file_b@),
        PayloadView::DependencyLinked {
            source_entity: local_id(e.file_a@, e.file_a@),
            target_entity: local_id(e.file_b@, e.file_b@),
            relation_type: RelationType::CoChanged,
            confidence: co_change_confidence(e.co_change_count),
            source: DiscoverySource::HistoricalContext,
            description: "Co-changed "@ + decimal(e.co_change_count as nat)
                + " times in git history (last seen: "@ + e.last_seen@ + ")"@,
        },
    ]
}

/// `co_change_payloads` as a closure.
pub open spec fn co_change_fn() -> spec_fn(CoChangeEntry) -> Seq<PayloadView> {
    |e: CoChangeEntry| co_change_payloads(e)
}

/// The confidence of a co-change pair, in millionths.
pub fn co_change_confidence_exec(count: u32) -> (r: u32)
    ensures
        r == co_change_confidence(count),
{
    let c: u64 = count as u64 * 20_000;
    if c < 200_000 {
        200_000
    } else if c > 900_000 {
        900_000
    } else {
        c as u32
    }
}

/// The module entity of a file seen in git history.
fn history_module_exec(file: &str) -> (r: EventPayload)
    ensures
        r@ == history_module_payload(file@),
{
    let exports: Vec<String> = Vec::new();
    assert(views(exports@) =~= seq![]);
    EventPayload::EntityDiscovered {
        entity_id: EntityId::local(file, file),
        kind: EntityKind::Module { language: "unknown".to_string(), exports },
        name: file.to_string(),
        file_path: file.to_string(),
        language: "unknown".to_string(),
        source: DiscoverySource::HistoricalContext,
        line_range: None,
    }
}

/// Ingest co-change pairs from git history. Each pair gives the module
/// entities of both files and a `CoChanged` edge from the first to the second,
/// found from historical context, whose confidence is `count / 50` clamped to
/// `[0.20, 0.90]`.
pub fn ingest_co_changes(entries: &[CoChangeEntry]) -> (r: Vec<UcmEvent>)
    ensures
        fresh_events(r@),
        payloads(r@) == concat_all(entries@, co_change_fn()),
{
    let ghost f = co_change_fn();
    let mut events: Vec<UcmEvent> = Vec::new();
    let mut i: usize = 0;
    while i < entries.len()
        invariant
            i <= entries.len(),
            f == co_change_fn(),
            fresh_events(events@),
            payloads(events@) == concat_map(entries@, f, i as int),
        decreases entries.len() - i,
    {
        let e = &entries[i];
        let ghost before = payloads(events@);
        let a = e.file_a.as_str();
        let b = e.file_b.as_str();
        push_event(&mut events, history_module_exec(a));
        push_event(&mut events, history_module_exec(b));
        let mut d: Vec<char> = Vec::new();
        push_str(&mut d, "Co-changed ");
        let count_text = decimal_exec(e.co_change_count as u64);
        extend(&mut d, &count_text);
        push_str(&mut d, " times in git history (last seen: ");
        push_str(&mut d, e.last_seen.as_str());
        push_str(&mut d, ")");
        let p = EventPayload::DependencyLinked {
            source_entity: EntityId::local(a, a),
            target_entity: EntityId::local(b, b),
            relation_type: RelationType::CoChanged,
            confidence: co_change_confidence_exec(e.co_change_count),
            source: DiscoverySource::HistoricalContext,
            description: string_of(&d),
        };
        push_event(&mut events, p);
        assert(payloads(events@) =~= before + co_change_payloads(*e));
        assert(concat_map(entries@, f, i + 1) == concat_map(entries@, f, i as int) + f(
            entries@[i as int],
        ));
        i += 1;
    }
    events
}

} // verus!
