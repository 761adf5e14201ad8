//! A presence registry: remote servers register and log out, and a periodic
//! sweep evicts those that stayed inactive for too long.
mod gate;
mod laws;
mod reaper;
mod service;
mod store;

pub use gate::{
    bearer_scheme, bearer_token, evaluate_token, expected_token, get_auth_headers, starts_with,
    token_accepted, AuthHeaders, RouteError,
};
pub use laws::{
    lemma_eviction_exact, lemma_gate_exact, lemma_logout_idempotent, lemma_logout_sweep_race,
    lemma_register_logout_round_trip, lemma_register_unique, logout_run, register_run, sweep_run,
};
pub use reaper::{elapsed, evicted_ids, garbage_cleanup, inactive_for, is_stale, swept, Eviction};
pub use service::{logout, logout_outcome, register, register_outcome, ServerState};
pub use store::{registry_contents, Registry, ServerInfo, ServerMap, Servers};
