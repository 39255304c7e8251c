//! Linear adapter: an issue becomes a Requirement entity (its labels standing
//! as acceptance criteria) and a Feature entity.
use vstd::prelude::*;

use crate::event::{fresh_events, payloads, push_event, PayloadView, UcmEvent};
use crate::jira_adapter::{feature_exec, feature_payload, requirement_exec, requirement_payload};
use crate::text::views;

verus! {

/// A Linear issue, in the shape of the GraphQL API's response.
#[derive(Debug, Clone)]
pub struct LinearIssue {
    pub identifier: String,
    pub title: String,
    pub description: String,
    pub state: String,
    pub priority: String,
    pub labels: Vec<String>,
    pub assignee: Option<String>,
    pub url: Option<String>,
}

/// The events of an issue: its requirement and its feature.
pub open spec fn issue_payloads(i: LinearIssue) -> Seq<PayloadView> {
    seq![
        requirement_payload("linear/"@, i.identifier@, i.title@, views(i.labels@)),
        feature_payload("linear/"@, i.identifier@, i.title@, i.description@, "linear"@),
    ]
}

/// Parse a Linear issue into context events: a Requirement entity whose
/// acceptance criteria are the issue's labels, and a Feature entity.
pub fn ingest_linear_issue(issue: &LinearIssue) -> (r: Vec<UcmEvent>)
    ensures
        fresh_events(r@),
        payloads(r@) == issue_payloads(*issue),
{
    let id = issue.identifier.as_str();
    let mut events: Vec<UcmEvent> = Vec::new();
    push_event(&mut events, requirement_exec("linear/", id, issue.title.as_str(), &issue.labels));
    push_event(
        &mut events,
        feature_exec("linear/", id, issue.title.as_str(), issue.description.as_str(), "linear"),
    );
    assert(payloads(events@) =~= issue_payloads(*issue));
    events
}

} // verus!
