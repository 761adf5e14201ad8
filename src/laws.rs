use vstd::prelude::*;
use crate::gate::{bearer_scheme, expected_token, token_accepted, RouteError};
use crate::reaper::{evicted_ids, is_stale, swept};
use crate::service::{logout_outcome, register_outcome};
use crate::store::Registry;

verus! {

/// Results of `register` requests for `id` with `token`, made one after the
/// other at the given times, starting from registry `m`.
pub open spec fn register_run(
    expected: Seq<char>,
    m: Registry,
    token: Seq<char>,
    id: Seq<char>,
    times: Seq<u64>,
) -> Seq<Result<(), RouteError>>
    decreases times.len(),
{
    if times.len() == 0 {
        Seq::empty()
    } else {
        let step = register_outcome(expected, m, token, id, times[0]);
        seq![step.1] + register_run(expected, step.0, token, id, times.drop_first())
    }
}

/// Registry and results after `n` `logout` requests for `id` with `token`,
/// made one after the other, starting from registry `m`.
pub open spec fn logout_run(expected: Seq<char>, m: Registry, token: Seq<char>, id: Seq<char>, n: nat) -> (
    Registry,
    Seq<Result<(), RouteError>>,
)
    decreases n,
{
    if n == 0 {
        (m, Seq::empty())
    } else {
        let step = logout_outcome(expected, m, token, id);
        let rest = logout_run(expected, step.0, token, id, (n - 1) as nat);
        (rest.0, seq![step.1] + rest.1)
    }
}

/// The registry after sweeps at each of the given times, in order.
pub open spec fn sweep_run(m: Registry, times: Seq<u64>, timeout: u64) -> Registry
    decreases times.len(),
{
    if times.len() == 0 {
        m
    } else {
        sweep_run(swept(m, times[0], timeout), times.drop_first(), timeout)
    }
}

proof fn lemma_register_run_conflicts(
    expected: Seq<char>,
    m: Registry,
    token: Seq<char>,
    id: Seq<char>,
    times: Seq<u64>,
)
    requires
        token_accepted(token, expected),
        m.contains_key(id),
    ensures
        register_run(expected, m, token, id, times).len() == times.len(),
        forall|i: int|
            0 <= i < times.len() ==> #[trigger] register_run(expected, m, token, id, times)[i]
                == Err::<(), RouteError>(RouteError::AlreadyConnected),
    decreases times.len(),
{
    if times.len() > 0 {
        lemma_register_run_conflicts(expected, m, token, id, times.drop_first());
        let rest = register_run(expected, m, token, id, times.drop_first());
        assert forall|i: int| 0 <= i < times.len() implies #[trigger] register_run(
            expected,
            m,
            token,
            id,
            times,
        )[i] == Err::<(), RouteError>(RouteError::AlreadyConnected) by {
            if i > 0 {
                assert(register_run(expected, m, token, id, times)[i] == rest[i - 1]);
            }
        }
    }
}

/// Registration is unique: of any series of `register` requests for one id,
/// with an accepted token, exactly the first succeeds where the id was not
/// registered, none where it was, and every other one is told the server is
/// already connected.
pub proof fn lemma_register_unique(
    expected: Seq<char>,
    m: Registry,
    token: Seq<char>,
    id: Seq<char>,
    times: Seq<u64>,
)
    requires
        token_accepted(token, expected),
    ensures
        register_run(expected, m, token, id, times).len() == times.len(),
        forall|i: int|
            0 <= i < times.len() ==> (#[trigger] register_run(expected, m, token, id, times)[i] is Ok
                <==> i == 0 && !m.contains_key(id)),
        forall|i: int|
            0 <= i < times.len() && !(i == 0 && !m.contains_key(id)) ==> #[trigger] register_run(
                expected,
                m,
                token,
                id,
                times,
            )[i] == Err::<(), RouteError>(RouteError::AlreadyConnected),
{
    if m.contains_key(id) {
        lemma_register_run_conflicts(expected, m, token, id, times);
    } else if times.len() > 0 {
        let m1 = m.insert(id, times[0]);
        lemma_register_run_conflicts(expected, m1, token, id, times.drop_first());
        let rest = register_run(expected, m1, token, id, times.drop_first());
        assert forall|i: int| 0 < i < times.len() implies #[trigger] register_run(
            expected,
            m,
            token,
            id,
            times,
        )[i] == Err::<(), RouteError>(RouteError::AlreadyConnected) by {
            assert(register_run(expected, m, token, id, times)[i] == rest[i - 1]);
        }
    }
}

/// Logging out is idempotent: any number of `logout` requests for an id that
/// is not registered, with an accepted token, each report that the server is
/// already logged out and leave the registry unchanged.
pub proof fn lemma_logout_idempotent(
    expected: Seq<char>,
    m: Registry,
    token: Seq<char>,
    id: Seq<char>,
    n: nat,
)
    requires
        token_accepted(token, expected),
        !m.contains_key(id),
    ensures
        logout_run(expected, m, token, id, n).0 == m,
        logout_run(expected, m, token, id, n).1.len() == n,
        forall|i: int|
            0 <= i < n ==> #[trigger] logout_run(expected, m, token, id, n).1[i] == Err::<
                (),
                RouteError,
            >(RouteError::AlreadyLoggedOut),
    decreases n,
{
    if n > 0 {
        lemma_logout_idempotent(expected, m, token, id, (n - 1) as nat);
        let rest = logout_run(expected, m, token, id, (n - 1) as nat);
        assert forall|i: int| 0 <= i < n implies #[trigger] logout_run(expected, m, token, id, n).1[i]
            == Err::<(), RouteError>(RouteError::AlreadyLoggedOut) by {
            if i > 0 {
                assert(logout_run(expected, m, token, id, n).1[i] == rest.1[i - 1]);
            }
        }
    }
}

/// Round trip: with an accepted token, `register` of an unregistered id then
/// `logout` of it both succeed and give back the registry as it was, without
/// the id, and a later `register` of it succeeds again.
pub proof fn lemma_register_logout_round_trip(
    expected: Seq<char>,
    m: Registry,
    token: Seq<char>,
    id: Seq<char>,
    now: u64,
    later: u64,
)
    requires
        token_accepted(token, expected),
        !m.contains_key(id),
    ensures
        register_outcome(expected, m, token, id, now).1 is Ok,
        logout_outcome(expected, register_outcome(expected, m, token, id, now).0, token, id).1 is Ok,
        logout_outcome(expected, register_outcome(expected, m, token, id, now).0, token, id).0 == m,
        !logout_outcome(
            expected,
            register_outcome(expected, m, token, id, now).0,
            token,
            id,
        ).0.contains_key(id),
        register_outcome(
            expected,
            logout_outcome(expected, register_outcome(expected, m, token, id, now).0, token, id).0,
            token,
            id,
            later,
        ).1 is Ok,
{
    assert(m.insert(id, now).remove(id) =~= m);
}

proof fn lemma_sweep_run_keeps(m: Registry, id: Seq<char>, times: Seq<u64>, timeout: u64)
    requires
        m.contains_key(id),
        forall|i: int| 0 <= i < times.len() ==> #[trigger] times[i] >= m[id],
    ensures
        sweep_run(m, times, timeout).contains_key(id) <==> forall|i: int|
            0 <= i < times.len() ==> #[trigger] times[i] < m[id] + timeout,
        sweep_run(m, times, timeout).contains_key(id) ==> sweep_run(m, times, timeout)[id] == m[id],
    decreases times.len(),
{
    if times.len() > 0 {
        let m1 = swept(m, times[0], timeout);
        if m1.contains_key(id) {
            let rest = times.drop_first();
            assert forall|i: int| 0 <= i < rest.len() implies #[trigger] rest[i] >= m1[id] by {
                assert(rest[i] == times[i + 1]);
            }
            lemma_sweep_run_keeps(m1, id, rest, timeout);
            if sweep_run(m, times, timeout).contains_key(id) {
                assert forall|i: int| 0 <= i < times.len() implies #[trigger] times[i] < m[id]
                    + timeout by {
                    if i > 0 {
                        assert(times[i] == rest[i - 1]);
                    }
                }
            } else {
                let j = choose|j: int| 0 <= j < rest.len() && !(#[trigger] rest[j] < m1[id] + timeout);
                assert(times[j + 1] == rest[j]);
            }
        } else {
            lemma_sweep_run_absent(m1, id, times.drop_first(), timeout);
        }
    }
}

proof fn lemma_sweep_run_absent(m: Registry, id: Seq<char>, times: Seq<u64>, timeout: u64)
    requires
        !m.contains_key(id),
    ensures
        !sweep_run(m, times, timeout).contains_key(id),
    decreases times.len(),
{
    if times.len() > 0 {
        lemma_sweep_run_absent(swept(m, times[0], timeout), id, times.drop_first(), timeout);
    }
}

/// Eviction is exact: an entry last active at `t0` stays through every sweep
/// made before `t0 + timeout`, and is gone after the first sweep at or after
/// that time. Each prefix of the series of sweeps is a series of its own.
pub proof fn lemma_eviction_exact(m: Registry, id: Seq<char>, times: Seq<u64>, timeout: u64)
    requires
        m.contains_key(id),
        forall|i: int| 0 <= i < times.len() ==> #[trigger] times[i] >= m[id],
    ensures
        forall|k: int|
            0 <= k <= times.len() ==> (#[trigger] sweep_run(m, times.take(k), timeout).contains_key(id)
                <==> forall|i: int| 0 <= i < k ==> #[trigger] times[i] < m[id] + timeout),
{
    assert forall|k: int| 0 <= k <= times.len() implies (#[trigger] sweep_run(
        m,
        times.take(k),
        timeout,
    ).contains_key(id) <==> forall|i: int| 0 <= i < k ==> #[trigger] times[i] < m[id] + timeout) by {
        let p = times.take(k);
        assert forall|i: int| 0 <= i < p.len() implies #[trigger] p[i] >= m[id] by {
            assert(p[i] == times[i]);
        }
        lemma_sweep_run_keeps(m, id, p, timeout);
        assert(forall|i: int| 0 <= i < k ==> p[i] == times[i]);
    }
}

/// A `logout` racing a sweep that evicts the same id: whichever runs first
/// removes the entry and the other finds it already gone; either way the entry
/// is removed once and the registry ends the same.
pub proof fn lemma_logout_sweep_race(
    expected: Seq<char>,
    m: Registry,
    token: Seq<char>,
    id: Seq<char>,
    now: u64,
    timeout: u64,
)
    requires
        token_accepted(token, expected),
        m.contains_key(id),
        is_stale(m[id], now, timeout),
    ensures
        evicted_ids(m, now, timeout).contains(id),
        logout_outcome(expected, swept(m, now, timeout), token, id).1 == Err::<(), RouteError>(
            RouteError::AlreadyLoggedOut,
        ),
        logout_outcome(expected, m, token, id).1 is Ok,
        !evicted_ids(logout_outcome(expected, m, token, id).0, now, timeout).contains(id),
        logout_outcome(expected, swept(m, now, timeout), token, id).0 == swept(
            logout_outcome(expected, m, token, id).0,
            now,
            timeout,
        ),
        !swept(m, now, timeout).contains_key(id),
{
    assert(swept(m.remove(id), now, timeout) =~= swept(m, now, timeout));
}

/// A token is accepted if and only if it is `Bearer ` followed by the
/// secret, where the secret does not itself begin with `Bearer `.
pub proof fn lemma_gate_exact(secret: Seq<char>, presented: Seq<char>)
    requires
        !bearer_scheme().is_prefix_of(secret),
    ensures
        token_accepted(presented, expected_token(secret)) <==> presented == bearer_scheme() + secret,
{
    let t = bearer_scheme() + secret;
    assert(t.subrange(0, bearer_scheme().len() as int) =~= bearer_scheme());
}

} // verus!
