//! Edge model for the context graph with confidence scoring and provenance.
//!
//! Each edge carries a confidence that is the noisy-OR fusion of its evidence,
//! and a decay rate chosen by relation type and discovery source.
use vstd::prelude::*;

use crate::clock::now_millis;
use crate::confidence::{noisy_or, noisy_or_spec};
use crate::entity::DiscoverySource;

verus! {

broadcast use vstd::string::group_string_axioms;

/// The type of relationship between two entities.
#[derive(Debug, Clone, Copy, PartialEq, Eq, Hash, Structural)]
pub enum RelationType {
    /// A imports/uses B (static dependency)
    Imports,
    /// A calls B (call graph edge)
    Calls,
    /// A is tested by B (test coverage mapping)
    TestedBy,
    /// A implements requirement B
    Implements,
    /// A depends on B (general dependency)
    DependsOn,
    /// A is required by B (requirement traceability)
    RequiredBy,
    /// A contains B (structural containment: module→function)
    Contains,
    /// A extends/inherits B
    Extends,
    /// A reads/writes same data as B (data flow)
    DataFlow,
    /// A was changed together with B historically (co-change)
    CoChanged,
}

/// A single piece of evidence supporting an edge's existence.
#[derive(Debug, Clone)]
pub struct EvidenceSource {
    /// What discovered this evidence
    pub source: DiscoverySource,
    /// Confidence from this individual source, in millionths
    pub confidence: u32,
    /// When this evidence was collected (milliseconds since the Unix epoch)
    pub observed_at: i64,
    /// Human-readable description of the evidence
    pub description: String,
}

/// An edge in the context graph with confidence scoring and provenance.
#[derive(Debug, Clone)]
pub struct UcmEdge {
    /// What kind of relationship this represents
    pub relation_type: RelationType,
    /// Fused confidence score, in millionths
    pub confidence: u32,
    /// Individual evidence sources that contributed to this edge
    pub evidence: Vec<EvidenceSource>,
    /// When this edge was first discovered (milliseconds since the Unix epoch)
    pub discovered_at: i64,
    /// When this edge was last verified
    pub verified_at: Option<i64>,
    /// Decay rate λ of temporal confidence decay, in millionths per day
    pub decay_rate: u32,
}

/// The confidences of a list of evidence sources.
pub open spec fn evidence_confidences(ev: Seq<EvidenceSource>) -> Seq<u32> {
    ev.map_values(|e: EvidenceSource| e.confidence)
}

/// Integer division truncated toward zero, as Rust divides.
pub open spec fn trunc_div(a: int, b: int) -> int {
    if a >= 0 {
        a / b
    } else {
        -((-a) / b)
    }
}

/// The decay rate (millionths per day) for a relation found by a source.
pub open spec fn decay_rate_for(relation_type: RelationType, source: DiscoverySource) -> u32 {
    match (relation_type, source) {
        (RelationType::Imports, DiscoverySource::StaticAnalysis) => 1000,
        (RelationType::Calls, DiscoverySource::StaticAnalysis) => 5000,
        (RelationType::TestedBy, _) => 10000,
        (RelationType::Implements, _) => 8000,
        (RelationType::RequiredBy, _) => 8000,
        (RelationType::CoChanged, _) => 30000,
        (_, DiscoverySource::ApiTraffic) => 100000,
        (_, DiscoverySource::HistoricalContext) => 50000,
        _ => 20000,
    }
}

/// The display text of a relation type.
pub open spec fn relation_text(r: RelationType) -> Seq<char> {
    match r {
        RelationType::Imports => "imports"@,
        RelationType::Calls => "calls"@,
        RelationType::TestedBy => "tested by"@,
        RelationType::Implements => "implements"@,
        RelationType::DependsOn => "depends on"@,
        RelationType::RequiredBy => "required by"@,
        RelationType::Contains => "contains"@,
        RelationType::Extends => "extends"@,
        RelationType::DataFlow => "data flow"@,
        RelationType::CoChanged => "co-changed with"@,
    }
}

/// `after` is `before` with one more piece of evidence (its source,
/// confidence and description as given) and its confidence re-fused with
/// noisy-OR over all of its evidence.
pub open spec fn evidence_added(
    before: UcmEdge,
    after: UcmEdge,
    source: DiscoverySource,
    confidence: u32,
    description: Seq<char>,
) -> bool {
    &&& after.evidence@.len() == before.evidence@.len() + 1
    &&& after.evidence@.drop_last() == before.evidence@
    &&& after.evidence@.last().source == source
    &&& after.evidence@.last().confidence == confidence
    &&& after.evidence@.last().description@ == description
    &&& after.confidence == noisy_or_spec(evidence_confidences(after.evidence@))
    &&& after.verified_at is Some
    &&& after.relation_type == before.relation_type
    &&& after.discovered_at == before.discovered_at
    &&& after.decay_rate == before.decay_rate
}

impl UcmEdge {
    /// Create a new edge with a single initial evidence source.
    pub fn new(
        relation_type: RelationType,
        source: DiscoverySource,
        confidence: u32,
        description: String,
    ) -> (r: Self)
        ensures
            r.relation_type == relation_type,
            r.confidence == confidence,
            r.evidence@.len() == 1,
            r.evidence@[0].source == source,
            r.evidence@[0].confidence == confidence,
            r.evidence@[0].description == description,
            r.evidence@[0].observed_at == r.discovered_at,
            r.verified_at == Some(r.discovered_at),
            r.decay_rate == decay_rate_for(relation_type, source),
    {
        let now = now_millis();
        let decay_rate = Self::default_decay_rate(relation_type, source);
        let mut evidence: Vec<EvidenceSource> = Vec::new();
        evidence.push(EvidenceSource { source, confidence, observed_at: now, description });
        UcmEdge {
            relation_type,
            confidence,
            evidence,
            discovered_at: now,
            verified_at: Some(now),
            decay_rate,
        }
    }

    /// Add new evidence and re-fuse confidence with noisy-OR over all evidence.
    pub fn add_evidence(&mut self, source: DiscoverySource, confidence: u32, description: String)
        ensures
            final(self).evidence@.len() == old(self).evidence@.len() + 1,
            final(self).evidence@.drop_last() == old(self).evidence@,
            final(self).evidence@.last().source == source,
            final(self).evidence@.last().confidence == confidence,
            final(self).evidence@.last().description == description,
            final(self).confidence == noisy_or_spec(evidence_confidences(final(self).evidence@)),
            final(self).verified_at is Some,
            final(self).relation_type == old(self).relation_type,
            final(self).discovered_at == old(self).discovered_at,
            final(self).decay_rate == old(self).decay_rate,
    {
        let observed_at = now_millis();
        self.evidence.push(EvidenceSource { source, confidence, observed_at, description });
        let mut confs: Vec<u32> = Vec::new();
        let mut i: usize = 0;
        while i < self.evidence.len()
            invariant
                i <= self.evidence.len(),
                confs@ == evidence_confidences(self.evidence@).take(i as int),
            decreases self.evidence.len() - i,
        {
            confs.push(self.evidence[i].confidence);
            assert(confs@ =~= evidence_confidences(self.evidence@).take(i + 1));
            i += 1;
        }
        assert(confs@ =~= evidence_confidences(self.evidence@));
        self.confidence = noisy_or(&confs);
        self.verified_at = Some(now_millis());
        assert(self.evidence@.drop_last() =~= old(self).evidence@);
    }

    /// The whole hours from the edge's last verification (or, never
    /// verified, its discovery) to `now_millis`, truncated toward zero: the
    /// age that temporal decay is computed from.
    pub fn elapsed_hours(&self, now_millis: i64) -> (r: i64)
        ensures
            r == trunc_div(
                now_millis - match self.verified_at {
                    Some(v) => v,
                    None => self.discovered_at,
                },
                3_600_000,
            ),
    {
        let last = match self.verified_at {
            Some(v) => v,
            None => self.discovered_at,
        };
        let diff: i128 = now_millis as i128 - last as i128;
        if diff >= 0 {
            let q: i128 = ((diff as u128) / 3_600_000u128) as i128;
            q as i64
        } else {
            let q: i128 = (((-diff) as u128) / 3_600_000u128) as i128;
            (-q) as i64
        }
    }

    /// Mark this edge as recently verified (resets the decay timer).
    pub fn verify(&mut self)
        ensures
            final(self).verified_at is Some,
            final(self).relation_type == old(self).relation_type,
            final(self).confidence == old(self).confidence,
            final(self).evidence == old(self).evidence,
            final(self).discovered_at == old(self).discovered_at,
            final(self).decay_rate == old(self).decay_rate,
    {
        self.verified_at = Some(now_millis());
    }

    /// Default decay rate based on relation type and discovery source:
    /// static imports decay slowest, API traffic patterns fastest.
    pub fn default_decay_rate(relation_type: RelationType, source: DiscoverySource) -> (r: u32)
        ensures
            r == decay_rate_for(relation_type, source),
    {
        match (relation_type, source) {
            (RelationType::Imports, DiscoverySource::StaticAnalysis) => 1000,
            (RelationType::Calls, DiscoverySource::StaticAnalysis) => 5000,
            (RelationType::TestedBy, _) => 10000,
            (RelationType::Implements, _) => 8000,
            (RelationType::RequiredBy, _) => 8000,
            (RelationType::CoChanged, _) => 30000,
            (_, DiscoverySource::ApiTraffic) => 100000,
            (_, DiscoverySource::HistoricalContext) => 50000,
            _ => 20000,
        }
    }

    /// Display text of the edge's relation type.
    pub fn relation_type_str(&self) -> (r: &'static str)
        ensures
            r@ == relation_text(self.relation_type),
    {
        relation_type_str(self.relation_type)
    }
}

/// The edge type under its ContextQA name.
pub type ContextEdge = UcmEdge;

/// Display text of a relation type.
pub fn relation_type_str(r: RelationType) -> (s: &'static str)
    ensures
        s@ == relation_text(r),
{
    match r {
        RelationType::Imports => "imports",
        RelationType::Calls => "calls",
        RelationType::TestedBy => "tested by",
        RelationType::Implements => "implements",
        RelationType::DependsOn => "depends on",
        RelationType::RequiredBy => "required by",
        RelationType::Contains => "contains",
        RelationType::Extends => "extends",
        RelationType::DataFlow => "data flow",
        RelationType::CoChanged => "co-changed with",
    }
}

/// New evidence never weakens an edge: where an edge's confidence is the
/// fusion of its evidence, the confidence after `add_evidence` is at least
/// what it was, and at most certainty.
pub proof fn evidence_never_weakens_an_edge(before: UcmEdge, after: UcmEdge)
    requires
        before.confidence == noisy_or_spec(evidence_confidences(before.evidence@)),
        after.evidence@.drop_last() == before.evidence@,
        after.evidence@.len() == before.evidence@.len() + 1,
        after.confidence == noisy_or_spec(evidence_confidences(after.evidence@)),
    ensures
        before.confidence <= after.confidence <= crate::confidence::CONFIDENCE_ONE,
{
    let cs = evidence_confidences(before.evidence@);
    let c = after.evidence@.last().confidence;
    assert(evidence_confidences(after.evidence@) =~= cs.push(c)) by {
        assert(after.evidence@ =~= before.evidence@.push(after.evidence@.last()));
    }
    crate::confidence::fusion_grows_with_evidence(cs, c);
}

/// Display tier for confidence scores: continuous internally, three tiers for display.
#[derive(Debug, Clone, Copy, PartialEq, Eq, Structural)]
pub enum ConfidenceTier {
    /// ≥ 0.85 — high confidence
    High,
    /// 0.60 - 0.84 — medium confidence
    Medium,
    /// < 0.60 — low confidence
    Low,
}

/// The tier of a confidence (in millionths).
pub open spec fn tier_of(c: u32) -> ConfidenceTier {
    if c >= 850_000 {
        ConfidenceTier::High
    } else if c >= 600_000 {
        ConfidenceTier::Medium
    } else {
        ConfidenceTier::Low
    }
}

/// The marker shown for a tier.
pub open spec fn tier_emoji(t: ConfidenceTier) -> Seq<char> {
    match t {
        ConfidenceTier::High => "🟢"@,
        ConfidenceTier::Medium => "🟡"@,
        ConfidenceTier::Low => "🔴"@,
    }
}

/// The name of a tier, as `{:?}` prints it.
pub open spec fn tier_name(t: ConfidenceTier) -> Seq<char> {
    match t {
        ConfidenceTier::High => "High"@,
        ConfidenceTier::Medium => "Medium"@,
        ConfidenceTier::Low => "Low"@,
    }
}

impl ConfidenceTier {
    /// The tier of a confidence: High from 0.85, Medium from 0.60, Low below.
    pub fn from_score(confidence: u32) -> (r: Self)
        ensures
            r == tier_of(confidence),
    {
        if confidence >= 850_000 {
            ConfidenceTier::High
        } else if confidence >= 600_000 {
            ConfidenceTier::Medium
        } else {
            ConfidenceTier::Low
        }
    }

    /// The marker shown for this tier.
    pub fn emoji(&self) -> (r: &'static str)
        ensures
            r@ == tier_emoji(*self),
    {
        match self {
            ConfidenceTier::High => "🟢",
            ConfidenceTier::Medium => "🟡",
            ConfidenceTier::Low => "🔴",
        }
    }

    /// The name of this tier.
    pub fn name(&self) -> (r: &'static str)
        ensures
            r@ == tier_name(*self),
    {
        match self {
            ConfidenceTier::High => "High",
            ConfidenceTier::Medium => "Medium",
            ConfidenceTier::Low => "Low",
        }
    }
}

} // verus!
