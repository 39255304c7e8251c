//! Event model — the append-only mutation log of the context graph.
//!
//! Every mutation of the context is an event; the graph is always rebuildable
//! from the events.
use vstd::prelude::*;

use crate::clock::{new_event_id, now_millis};
use crate::edge::RelationType;
use crate::entity::{id_views, opt_view, DiscoverySource, EntityId, EntityKind, KindView};

verus! {

/// A mutation event in the context graph's append-only log.
#[derive(Debug, Clone)]
pub struct UcmEvent {
    /// Unique event identifier (the 128-bit value of a time-ordered UUID v7)
    pub event_id: u128,
    /// When this event occurred (milliseconds since the Unix epoch)
    pub timestamp: i64,
    /// Which event caused this one (for causation chains)
    pub causation_id: Option<u128>,
    /// Schema version for upcasting support
    pub schema_version: u32,
    /// The actual mutation
    pub payload: EventPayload,
}

/// The typed payload of a context event. Confidences are in millionths.
#[derive(Debug, Clone)]
pub enum EventPayload {
    /// A new entity was discovered in the codebase
    EntityDiscovered {
        entity_id: EntityId,
        kind: EntityKind,
        name: String,
        file_path: String,
        language: String,
        source: DiscoverySource,
        line_range: Option<(usize, usize)>,
    },
    /// An entity was removed (file deleted, function removed, etc.)
    EntityRemoved { entity_id: EntityId, reason: String },
    /// A relationship between entities was discovered
    DependencyLinked {
        source_entity: EntityId,
        target_entity: EntityId,
        relation_type: RelationType,
        confidence: u32,
        source: DiscoverySource,
        description: String,
    },
    /// New evidence was added to an existing edge
    ConfidenceUpdated {
        source_entity: EntityId,
        target_entity: EntityId,
        new_evidence_confidence: u32,
        source: DiscoverySource,
        description: String,
    },
    /// A code change was detected
    ChangeDetected {
        file_path: String,
        change_type: ChangeType,
        affected_entities: Vec<EntityId>,
        before_snapshot: Option<String>,
        after_snapshot: Option<String>,
    },
    /// A conflict or ambiguity was flagged
    ConflictFlagged {
        entity_id: EntityId,
        conflict_type: ConflictType,
        sources: Vec<ConflictSource>,
        description: String,
    },
    /// An edge was verified (resets decay timer)
    EdgeVerified { source_entity: EntityId, target_entity: EntityId },
    /// Batch ingestion completed
    IngestionCompleted {
        source: DiscoverySource,
        entities_count: usize,
        edges_count: usize,
        duration_ms: u64,
    },
}

/// The kind of a detected code change.
#[derive(Debug, Clone)]
pub enum ChangeType {
    /// Function/method signature changed
    SignatureChange,
    /// Function/method body changed
    BodyChange,
    /// New entity added
    EntityAdded,
    /// Entity deleted
    EntityDeleted,
    /// File renamed/moved
    FileRenamed { old_path: String },
    /// Import added/removed
    ImportChange,
}

/// The kind of a flagged conflict.
#[derive(Debug, Clone, Copy, PartialEq, Eq, Structural)]
pub enum ConflictType {
    /// Requirements say X but code does Y
    RequirementDrift,
    /// Two sources provide contradictory information
    SourceConflict,
    /// Expected data is missing
    MissingData,
    /// Coverage gap — code exists but no test covers it
    CoverageGap,
}

/// One source's claim in a conflict.
#[derive(Debug, Clone)]
pub struct ConflictSource {
    pub source_type: String,
    pub claimed_value: String,
    /// Confidence in millionths
    pub confidence: u32,
}

/// The view of a change type.
pub enum ChangeTypeView {
    SignatureChange,
    BodyChange,
    EntityAdded,
    EntityDeleted,
    FileRenamed { old_path: Seq<char> },
    ImportChange,
}

impl View for ChangeType {
    type V = ChangeTypeView;

    open spec fn view(&self) -> ChangeTypeView {
        match self {
            ChangeType::SignatureChange => ChangeTypeView::SignatureChange,
            ChangeType::BodyChange => ChangeTypeView::BodyChange,
            ChangeType::EntityAdded => ChangeTypeView::EntityAdded,
            ChangeType::EntityDeleted => ChangeTypeView::EntityDeleted,
            ChangeType::FileRenamed { old_path } => ChangeTypeView::FileRenamed {
                old_path: old_path@,
            },
            ChangeType::ImportChange => ChangeTypeView::ImportChange,
        }
    }
}

/// The view of a conflict source.
pub struct ConflictSourceView {
    pub source_type: Seq<char>,
    pub claimed_value: Seq<char>,
    pub confidence: u32,
}

/// The views of a list of conflict sources.
pub open spec fn conflict_views(v: Seq<ConflictSource>) -> Seq<ConflictSourceView> {
    v.map_values(
        |c: ConflictSource|
            ConflictSourceView {
                source_type: c.source_type@,
                claimed_value: c.claimed_value@,
                confidence: c.confidence,
            },
    )
}

/// The view of an event payload: every text as characters.
pub enum PayloadView {
    EntityDiscovered {
        entity_id: Seq<char>,
        kind: KindView,
        name: Seq<char>,
        file_path: Seq<char>,
        language: Seq<char>,
        source: DiscoverySource,
        line_range: Option<(usize, usize)>,
    },
    EntityRemoved { entity_id: Seq<char>, reason: Seq<char> },
    DependencyLinked {
        source_entity: Seq<char>,
        target_entity: Seq<char>,
        relation_type: RelationType,
        confidence: u32,
        source: DiscoverySource,
        description: Seq<char>,
    },
    ConfidenceUpdated {
        source_entity: Seq<char>,
        target_entity: Seq<char>,
        new_evidence_confidence: u32,
        source: DiscoverySource,
        description: Seq<char>,
    },
    ChangeDetected {
        file_path: Seq<char>,
        change_type: ChangeTypeView,
        affected_entities: Seq<Seq<char>>,
        before_snapshot: Option<Seq<char>>,
        after_snapshot: Option<Seq<char>>,
    },
    ConflictFlagged {
        entity_id: Seq<char>,
        conflict_type: ConflictType,
        sources: Seq<ConflictSourceView>,
        description: Seq<char>,
    },
    EdgeVerified { source_entity: Seq<char>, target_entity: Seq<char> },
    IngestionCompleted {
        source: DiscoverySource,
        entities_count: usize,
        edges_count: usize,
        duration_ms: u64,
    },
}

impl View for EventPayload {
    type V = PayloadView;

    open spec fn view(&self) -> PayloadView {
        match self {
            EventPayload::EntityDiscovered {
                entity_id,
                kind,
                name,
                file_path,
                language,
                source,
                line_range,
            } => PayloadView::EntityDiscovered {
                entity_id: entity_id@,
                kind: kind@,
                name: name@,
                file_path: file_path@,
                language: language@,
                source: *source,
                line_range: *line_range,
            },
            EventPayload::EntityRemoved { entity_id, reason } => PayloadView::EntityRemoved {
                entity_id: entity_id@,
                reason: reason@,
            },
            EventPayload::DependencyLinked {
                source_entity,
                target_entity,
                relation_type,
                confidence,
                source,
                description,
            } => PayloadView::DependencyLinked {
                source_entity: source_entity@,
                target_entity: target_entity@,
                relation_type: *relation_type,
                confidence: *confidence,
                source: *source,
                description: description@,
            },
            EventPayload::ConfidenceUpdated {
                source_entity,
                target_entity,
                new_evidence_confidence,
                source,
                description,
            } => PayloadView::ConfidenceUpdated {
                source_entity: source_entity@,
                target_entity: target_entity@,
                new_evidence_confidence: *new_evidence_confidence,
                source: *source,
                description: description@,
            },
            EventPayload::ChangeDetected {
                file_path,
                change_type,
                affected_entities,
                before_snapshot,
                after_snapshot,
            } => PayloadView::ChangeDetected {
                file_path: file_path@,
                change_type: change_type@,
                affected_entities: id_views(affected_entities@),
                before_snapshot: opt_view(*before_snapshot),
                after_snapshot: opt_view(*after_snapshot),
            },
            EventPayload::ConflictFlagged { entity_id, conflict_type, sources, description } =>
            PayloadView::ConflictFlagged {
                entity_id: entity_id@,
                conflict_type: *conflict_type,
                sources: conflict_views(sources@),
                description: description@,
            },
            EventPayload::EdgeVerified { source_entity, target_entity } =>
            PayloadView::EdgeVerified {
                source_entity: source_entity@,
                target_entity: target_entity@,
            },
            EventPayload::IngestionCompleted { source, entities_count, edges_count, duration_ms } =>
            PayloadView::IngestionCompleted {
                source: *source,
                entities_count: *entities_count,
                edges_count: *edges_count,
                duration_ms: *duration_ms,
            },
        }
    }
}

/// The payload views of a list of events.
pub open spec fn payloads(events: Seq<UcmEvent>) -> Seq<PayloadView> {
    events.map_values(|e: UcmEvent| e.payload@)
}

/// How many of the payloads discover an entity.
pub open spec fn discoveries(ps: Seq<PayloadView>) -> nat
    decreases ps.len(),
{
    if ps.len() == 0 {
        0
    } else {
        discoveries(ps.drop_last()) + if ps.last() is EntityDiscovered {
            1nat
        } else {
            0nat
        }
    }
}

/// How many of the payloads link two entities.
pub open spec fn links_of(ps: Seq<PayloadView>) -> nat
    decreases ps.len(),
{
    if ps.len() == 0 {
        0
    } else {
        links_of(ps.drop_last()) + if ps.last() is DependencyLinked {
            1nat
        } else {
            0nat
        }
    }
}

/// The numbers of entity discoveries and of dependency links among events.
pub fn count_discoveries_and_links(events: &[UcmEvent]) -> (r: (usize, usize))
    ensures
        r.0 == discoveries(payloads(events@)),
        r.1 == links_of(payloads(events@)),
{
    let ghost ps = payloads(events@);
    let mut d: usize = 0;
    let mut l: usize = 0;
    let mut i: usize = 0;
    while i < events.len()
        invariant
            i <= events.len(),
            ps == payloads(events@),
            d == discoveries(ps.take(i as int)),
            l == links_of(ps.take(i as int)),
            d <= i,
            l <= i,
        decreases events.len() - i,
    {
        assert(ps.take(i + 1).drop_last() =~= ps.take(i as int));
        assert(ps[i as int] == events@[i as int].payload@);
        match &events[i].payload {
            EventPayload::EntityDiscovered { .. } => {
                d = d + 1;
            },
            EventPayload::DependencyLinked { .. } => {
                l = l + 1;
            },
            _ => {},
        }
        i += 1;
    }
    assert(ps.take(events.len() as int) =~= ps);
    (d, l)
}

impl UcmEvent {
    /// Create a new event with a fresh UUID v7 and the current timestamp.
    pub fn new(payload: EventPayload) -> (r: Self)
        ensures
            r.payload == payload,
            r.causation_id is None,
            r.schema_version == 1,
    {
        UcmEvent {
            event_id: new_event_id(),
            timestamp: now_millis(),
            causation_id: None,
            schema_version: 1,
            payload,
        }
    }

    /// Create a new event linked to the event that caused it.
    pub fn caused_by(payload: EventPayload, parent: u128) -> (r: Self)
        ensures
            r.payload == payload,
            r.causation_id == Some(parent),
            r.schema_version == 1,
    {
        UcmEvent {
            event_id: new_event_id(),
            timestamp: now_millis(),
            causation_id: Some(parent),
            schema_version: 1,
            payload,
        }
    }
}

/// Events made afresh: none caused by another, each of schema version 1.
pub open spec fn fresh_events(events: Seq<UcmEvent>) -> bool {
    forall|i: int| 0 <= i < events.len() ==> (#[trigger] events[i]).causation_id is None && events[i].schema_version == 1
}

/// Appends one event carrying the payload.
pub fn push_event(events: &mut Vec<UcmEvent>, p: EventPayload)
    ensures
        payloads(final(events)@) == payloads(old(events)@).push(p@),
        fresh_events(old(events)@) ==> fresh_events(final(events)@),
{
    let ghost before = events@;
    let e = UcmEvent::new(p);
    events.push(e);
    assert(events@ =~= before.push(e));
    assert(payloads(events@) =~= payloads(before).push(p@));
}

} // verus!
