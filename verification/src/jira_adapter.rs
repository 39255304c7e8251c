//! Jira adapter: a ticket becomes a Requirement entity, a Feature entity, and
//! an `Implements` edge from each file the ticket links.
use vstd::prelude::*;

use crate::edge::RelationType;
use crate::entity::{local_id, DiscoverySource, EntityId, EntityKind, KindView};
use crate::event::{fresh_events, payloads, push_event, EventPayload, PayloadView, UcmEvent};
use crate::text::{cat2, cat3, cat4, views};

verus! {

broadcast use vstd::string::group_string_axioms;

/// Confidence of a link from a file to the ticket that names it (0.70).
pub const TICKET_LINK_CONFIDENCE: u32 = 700_000;

/// A simplified Jira ticket.
#[derive(Debug, Clone)]
pub struct JiraTicket {
    pub key: String,
    pub summary: String,
    pub description: String,
    pub acceptance_criteria: Vec<String>,
    pub linked_files: Vec<String>,
    pub status: String,
}

/// The Requirement entity of a ticket `key` kept under `dir/key`.
pub open spec fn requirement_payload(
    dir: Seq<char>,
    key: Seq<char>,
    title: Seq<char>,
    criteria: Seq<Seq<char>>,
) -> PayloadView {
    PayloadView::EntityDiscovered {
        entity_id: local_id(dir + key, key),
        kind: KindView::Requirement { ticket_id: Some(key), acceptance_criteria: criteria },
        name: key + ": "@ + title,
        file_path: dir + key,
        language: "requirement"@,
        source: DiscoverySource::TicketSystem,
        line_range: None,
    }
}

/// The Feature entity of a ticket `key` kept under `dir/key`, from `origin`.
pub open spec fn feature_payload(
    dir: Seq<char>,
    key: Seq<char>,
    title: Seq<char>,
    description: Seq<char>,
    origin: Seq<char>,
) -> PayloadView {
    PayloadView::EntityDiscovered {
        entity_id: local_id(dir + key, "feature:"@ + key),
        kind: KindView::Feature { description, source: origin },
        name: title,
        file_path: dir + key,
        language: "requirement"@,
        source: DiscoverySource::TicketSystem,
        line_range: None,
    }
}

/// The `Implements` edge from a linked file's module to the ticket's requirement.
pub open spec fn ticket_link_payload(key: Seq<char>, file: Seq<char>) -> PayloadView {
    PayloadView::DependencyLinked {
        source_entity: local_id(file, "module:"@ + file),
        target_entity: local_id("jira/"@ + key, key),
        relation_type: RelationType::Implements,
        confidence: TICKET_LINK_CONFIDENCE,
        source: DiscoverySource::TicketSystem,
        description: "File "@ + file + " linked to ticket "@ + key,
    }
}

/// `ticket_link_payload` for one ticket.
pub open spec fn ticket_link_fn(key: Seq<char>) -> spec_fn(Seq<char>) -> PayloadView {
    |f: Seq<char>| ticket_link_payload(key, f)
}

/// The events of a ticket: its requirement, its feature, and one link per file.
pub open spec fn ticket_payloads(t: JiraTicket) -> Seq<PayloadView> {
    seq![
        requirement_payload("jira/"@, t.key@, t.summary@, views(t.acceptance_criteria@)),
        feature_payload("jira/"@, t.key@, t.summary@, t.description@, "jira"@),
    ] + views(t.linked_files@).map_values(ticket_link_fn(t.key@))
}

/// Builds the Requirement entity of a ticket.
pub fn requirement_exec(dir: &str, key: &str, title: &str, criteria: &Vec<String>) -> (r: EventPayload)
    ensures
        r@ == requirement_payload(dir@, key@, title@, views(criteria@)),
{
    let fp = cat2(dir, key);
    EventPayload::EntityDiscovered {
        entity_id: EntityId::local(fp.as_str(), key),
        kind: EntityKind::Requirement {
            ticket_id: Some(key.to_string()),
            acceptance_criteria: crate::entity::copy_strings(criteria),
        },
        name: cat3(key, ": ", title),
        file_path: fp,
        language: "requirement".to_string(),
        source: DiscoverySource::TicketSystem,
        line_range: None,
    }
}

/// Builds the Feature entity of a ticket.
pub fn feature_exec(dir: &str, key: &str, title: &str, description: &str, origin: &str) -> (r:
    EventPayload)
    ensures
        r@ == feature_payload(dir@, key@, title@, description@, origin@),
{
    let fp = cat2(dir, key);
    let feature_key = cat2("feature:", key);
    EventPayload::EntityDiscovered {
        entity_id: EntityId::local(fp.as_str(), feature_key.as_str()),
        kind: EntityKind::Feature { description: description.to_string(), source: origin.to_string() },
        name: title.to_string(),
        file_path: fp,
        language: "requirement".to_string(),
        source: DiscoverySource::TicketSystem,
        line_range: None,
    }
}

/// Parse a Jira ticket into context events: a Requirement entity (with the
/// acceptance criteria), a Feature entity, and for each linked file an
/// `Implements` edge (confidence 0.70) from the file's module to the requirement.
pub fn ingest_ticket(ticket: &JiraTicket) -> (r: Vec<UcmEvent>)
    ensures
        fresh_events(r@),
        payloads(r@) == ticket_payloads(*ticket),
{
    let key = ticket.key.as_str();
    let mut events: Vec<UcmEvent> = Vec::new();
    push_event(
        &mut events,
        requirement_exec("jira/", key, ticket.summary.as_str(), &ticket.acceptance_criteria),
    );
    push_event(
        &mut events,
        feature_exec("jira/", key, ticket.summary.as_str(), ticket.description.as_str(), "jira"),
    );
    let ghost head = payloads(events@);
    let ghost fv = views(ticket.linked_files@);
    let ghost g = ticket_link_fn(key@);
    let fp = cat2("jira/", key);
    let mut i: usize = 0;
    while i < ticket.linked_files.len()
        invariant
            i <= ticket.linked_files.len(),
            fv == views(ticket.linked_files@),
            g == ticket_link_fn(key@),
            key@ == ticket.key@,
            fp@ == "jira/"@ + key@,
            fresh_events(events@),
            payloads(events@) == head + fv.take(i as int).map_values(g),
        decreases ticket.linked_files.len() - i,
    {
        let file = ticket.linked_files[i].as_str();
        let module_key = cat2("module:", file);
        let p = EventPayload::DependencyLinked {
            source_entity: EntityId::local(file, module_key.as_str()),
            target_entity: EntityId::local(fp.as_str(), key),
            relation_type: RelationType::Implements,
            confidence: TICKET_LINK_CONFIDENCE,
            source: DiscoverySource::TicketSystem,
            description: cat4("File ", file, " linked to ticket ", key),
        };
        assert(p@ == g(fv[i as int]));
        push_event(&mut events, p);
        assert(fv.take(i + 1).map_values(g) =~= fv.take(i as int).map_values(g).push(p@));
        i += 1;
    }
    assert(fv.take(ticket.linked_files.len() as int) =~= fv);
    events
}

} // verus!
