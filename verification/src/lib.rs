//! Unified Context Model: a dependency graph of a code base, ingestion of code,
//! tickets and logs into it, and confidence-weighted impact analysis over it.
use vstd::prelude::*;

pub mod ambiguity;
pub mod api_log_adapter;
pub mod clock;
pub mod code_parser;
pub mod confidence;
pub mod demo;
pub mod diff_parser;
pub mod edge;
pub mod entity;
pub mod error;
pub mod event;
pub mod explanation;
pub mod git_history_adapter;
pub mod graph;
pub mod impact;
pub mod intent;
pub mod jira_adapter;
pub mod keyed;
pub mod linear_adapter;
pub mod projection;
pub mod replay;
pub mod report;
pub mod scan;
pub mod source_events;
pub mod stable_graph;
pub mod store;
pub mod text;
pub mod trace;

verus! {

} // verus!
