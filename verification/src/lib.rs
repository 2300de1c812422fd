use vstd::prelude::*;

pub mod text;
pub mod json;
pub mod shell;
pub mod session;
pub mod clock;
pub mod sweep;
pub mod settings;
pub mod diff;
pub mod steering;
pub mod script;
pub mod transition_guard;
pub mod stats;
pub mod workdir;
pub mod switch_router;
pub mod trigger_scheduler;
pub mod absorption;
pub mod absorption_store;
pub mod session_tally;
pub mod performance_walk;
pub mod absorption_requests;
pub mod search_path;
pub mod trigger_edit;
pub mod absorption_tallies;
pub mod transcript_labels;
pub mod model_identity;
pub mod infra_session;
pub mod cost_project;
pub mod absorption_order;

verus! {
}
