use vstd::prelude::*;
use crate::service::ServerState;

verus! {

/// Why a request was turned down.
#[derive(Debug, Clone, Copy, PartialEq, Eq, Structural)]
pub enum RouteError {
    /// A credential header is missing or unreadable.
    PreconditionFailed,
    /// The presented token does not match the expected one.
    Forbidden,
    /// `register` on a server that is already registered.
    AlreadyConnected,
    /// `logout` on a server that is not registered.
    AlreadyLoggedOut,
}

/// The two credentials that a request carries.
pub struct AuthHeaders {
    /// Authorization token, `Bearer <secret>`.
    pub auth_token: String,
    /// Id of the server that sends the request.
    pub server_id: String,
}

/// The authorization scheme marker that every token starts with.
pub open spec fn bearer_scheme() -> Seq<char> {
    seq!['B', 'e', 'a', 'r', 'e', 'r', ' ']
}

/// Whether `presented` is accepted against the expected token.
pub open spec fn token_accepted(presented: Seq<char>, expected: Seq<char>) -> bool {
    bearer_scheme().is_prefix_of(presented) && presented == expected
}

/// The expected token built from a configured secret: the secret itself if it
/// already carries the scheme marker, else the marker followed by the secret.
pub open spec fn expected_token(secret: Seq<char>) -> Seq<char> {
    if bearer_scheme().is_prefix_of(secret) {
        secret
    } else {
        bearer_scheme() + secret
    }
}

fn scheme() -> (r: &'static str)
    ensures
        r@ == bearer_scheme(),
{
    proof {
        reveal_strlit("Bearer ");
    }
    "Bearer "
}

/// Whether `s` begins with `prefix`.
pub fn starts_with(s: &str, prefix: &str) -> (r: bool)
    ensures
        r == prefix@.is_prefix_of(s@),
{
    let n = prefix.unicode_len();
    if n > s.unicode_len() {
        return false;
    }
    let mut i: usize = 0;
    while i < n
        invariant
            n == prefix@.len(),
            n <= s@.len(),
            i <= n,
            forall|j: int| 0 <= j < i ==> s@[j] == prefix@[j],
        decreases n - i,
    {
        if s.get_char(i) != prefix.get_char(i) {
            return false;
        }
        i += 1;
    }
    assert(prefix@ =~= s@.subrange(0, n as int));
    true
}

/// The token that requests must present, given the configured secret.
pub fn bearer_token(secret: &str) -> (r: String)
    ensures
        r@ == expected_token(secret@),
{
    let marker = scheme();
    if starts_with(secret, marker) {
        secret.to_owned()
    } else {
        marker.to_owned().concat(secret)
    }
}

/// Checks the presented token against the state's expected token.
pub fn evaluate_token(state: &ServerState, headers: &AuthHeaders) -> (r: Result<(), RouteError>)
    ensures
        r is Ok <==> token_accepted(headers.auth_token@, state.auth_token@),
        r is Err ==> r == Err::<(), RouteError>(RouteError::Forbidden),
{
    if starts_with(headers.auth_token.as_str(), scheme()) && headers.auth_token == state.auth_token {
        Ok(())
    } else {
        Err(RouteError::Forbidden)
    }
}

/// Builds the credentials from the `Authorization` and `Server` header values;
/// a missing or unreadable one fails the request's precondition.
pub fn get_auth_headers(authorization: Option<&str>, server: Option<&str>) -> (r: Result<
    AuthHeaders,
    RouteError,
>)
    ensures
        r is Ok <==> authorization is Some && server is Some,
        r is Ok ==> r->Ok_0.auth_token@ == authorization->0@ && r->Ok_0.server_id@ == server->0@,
        r is Err ==> r->Err_0 == RouteError::PreconditionFailed,
{
    match (authorization, server) {
        (Some(a), Some(s)) => Ok(AuthHeaders { auth_token: a.to_owned(), server_id: s.to_owned() }),
        _ => Err(RouteError::PreconditionFailed),
    }
}

} // verus!
