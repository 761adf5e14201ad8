use vstd::prelude::*;
use crate::gate::{bearer_token, evaluate_token, expected_token, token_accepted, AuthHeaders, RouteError};
use crate::store::{Registry, Servers};

verus! {

/// What every request handler shares: the expected token and the registry.
pub struct ServerState {
    /// Token that requests must present, `Bearer <secret>`.
    pub auth_token: String,
    /// Connected servers and the time each registered.
    pub connected_servers: Servers,
}

/// Outcome of `register` on registry `m`, for a request with token `token`
/// and server id `id` at time `now`, where `expected` is the expected token.
pub open spec fn register_outcome(
    expected: Seq<char>,
    m: Registry,
    token: Seq<char>,
    id: Seq<char>,
    now: u64,
) -> (Registry, Result<(), RouteError>) {
    if !token_accepted(token, expected) {
        (m, Err(RouteError::Forbidden))
    } else if m.contains_key(id) {
        (m, Err(RouteError::AlreadyConnected))
    } else {
        (m.insert(id, now), Ok(()))
    }
}

/// Outcome of `logout` on registry `m`, for a request with token `token` and
/// server id `id`, where `expected` is the expected token.
pub open spec fn logout_outcome(expected: Seq<char>, m: Registry, token: Seq<char>, id: Seq<char>) -> (
    Registry,
    Result<(), RouteError>,
) {
    if !token_accepted(token, expected) {
        (m, Err(RouteError::Forbidden))
    } else if !m.contains_key(id) {
        (m, Err(RouteError::AlreadyLoggedOut))
    } else {
        (m.remove(id), Ok(()))
    }
}

impl ServerState {
    /// A state with no server registered, expecting the token made from
    /// `secret`.
    pub fn new(secret: &str) -> (s: ServerState)
        ensures
            s.auth_token@ == expected_token(secret@),
            s.connected_servers@ == Registry::empty(),
    {
        ServerState { auth_token: bearer_token(secret), connected_servers: Servers::new() }
    }
}

/// Registers the server that sends the request, at time `now`.
pub fn register(state: &mut ServerState, headers: &AuthHeaders, now: u64) -> (r: Result<(), RouteError>)
    ensures
        final(state).auth_token == old(state).auth_token,
        (final(state).connected_servers@, r) == register_outcome(
            old(state).auth_token@,
            old(state).connected_servers@,
            headers.auth_token@,
            headers.server_id@,
            now,
        ),
{
    evaluate_token(state, headers)?;
    if state.connected_servers.try_insert(headers.server_id.clone(), now) {
        Ok(())
    } else {
        Err(RouteError::AlreadyConnected)
    }
}

/// Logs out the server that sends the request.
pub fn logout(state: &mut ServerState, headers: &AuthHeaders) -> (r: Result<(), RouteError>)
    ensures
        final(state).auth_token == old(state).auth_token,
        (final(state).connected_servers@, r) == logout_outcome(
            old(state).auth_token@,
            old(state).connected_servers@,
            headers.auth_token@,
            headers.server_id@,
        ),
{
    evaluate_token(state, headers)?;
    if state.connected_servers.try_remove(headers.server_id.as_str()) {
        Ok(())
    } else {
        Err(RouteError::AlreadyLoggedOut)
    }
}

} // verus!
