use vstd::prelude::*;
use crate::store::{Registry, Servers};

verus! {

/// How long an entry last active at `last` has been inactive at time `now`; a
/// clock that went back counts as no inactivity.
pub open spec fn inactive_for(last: u64, now: u64) -> nat {
    if now >= last {
        (now - last) as nat
    } else {
        0
    }
}

/// Whether an entry last active at `last` is due for eviction at `now`.
pub open spec fn is_stale(last: u64, now: u64, timeout: u64) -> bool {
    inactive_for(last, now) >= timeout
}

/// The registry after a sweep at `now`: the entries that are not stale.
pub open spec fn swept(m: Registry, now: u64, timeout: u64) -> Registry {
    Map::new(|k: Seq<char>| m.contains_key(k) && !is_stale(m[k], now, timeout), |k: Seq<char>| m[k])
}

/// The ids that a sweep at `now` evicts.
pub open spec fn evicted_ids(m: Registry, now: u64, timeout: u64) -> Set<Seq<char>> {
    Set::new(|k: Seq<char>| m.contains_key(k) && is_stale(m[k], now, timeout))
}

/// One server removed by a sweep.
pub struct Eviction {
    pub server_id: String,
    /// How long it had been inactive when it was removed.
    pub inactive_for: u64,
}

/// Elapsed inactivity, saturating at zero when the clock went back.
pub fn elapsed(last: u64, now: u64) -> (r: u64)
    ensures
        r == inactive_for(last, now),
{
    if now >= last {
        now - last
    } else {
        0
    }
}

/// One sweep at time `now`: removes every server whose inactivity reached
/// `timeout` and returns what it removed.
pub fn garbage_cleanup(servers: &mut Servers, now: u64, timeout: u64) -> (r: Vec<Eviction>)
    ensures
        final(servers)@ == swept(old(servers)@, now, timeout),
        forall|i: int|
            0 <= i < r@.len() ==> old(servers)@.contains_key(#[trigger] r@[i].server_id@)
                && is_stale(old(servers)@[r@[i].server_id@], now, timeout) && r@[i].inactive_for
                == inactive_for(old(servers)@[r@[i].server_id@], now),
        forall|k: Seq<char>|
            #[trigger] evicted_ids(old(servers)@, now, timeout).contains(k) ==> exists|i: int|
                0 <= i < r@.len() && r@[i].server_id@ == k,
        forall|i: int, j: int|
            0 <= i < r@.len() && 0 <= j < r@.len() && i != j ==> #[trigger] r@[i].server_id@
                != #[trigger] r@[j].server_id@,
{
    let ghost m = servers@;
    let snap = servers.snapshot();
    let mut evicted: Vec<Eviction> = Vec::new();
    let mut i: usize = 0;
    while i < snap.len()
        invariant
            i <= snap@.len(),
            forall|j: int|
                0 <= j < snap@.len() ==> m.contains_key(#[trigger] snap@[j].0@) && m[snap@[j].0@]
                    == snap@[j].1,
            forall|k: Seq<char>|
                m.contains_key(k) ==> exists|j: int| 0 <= j < snap@.len() && #[trigger] snap@[j].0@ == k,
            forall|a: int, b: int|
                0 <= a < snap@.len() && 0 <= b < snap@.len() && a != b ==> #[trigger] snap@[a].0@
                    != #[trigger] snap@[b].0@,
            forall|k: Seq<char>|
                #[trigger] servers@.contains_key(k) <==> m.contains_key(k) && !(is_stale(
                    m[k],
                    now,
                    timeout,
                ) && exists|j: int| 0 <= j < i && #[trigger] snap@[j].0@ == k),
            forall|k: Seq<char>| #[trigger] servers@.contains_key(k) ==> servers@[k] == m[k],
            forall|e: int|
                0 <= e < evicted@.len() ==> exists|j: int|
                    0 <= j < i && snap@[j].0@ == (#[trigger] evicted@[e]).server_id@,
            forall|e: int|
                0 <= e < evicted@.len() ==> m.contains_key(#[trigger] evicted@[e].server_id@)
                    && is_stale(m[evicted@[e].server_id@], now, timeout)
                    && evicted@[e].inactive_for == inactive_for(m[evicted@[e].server_id@], now),
            forall|j: int|
                0 <= j < i && is_stale(#[trigger] snap@[j].1, now, timeout) ==> exists|e: int|
                    0 <= e < evicted@.len() && evicted@[e].server_id@ == snap@[j].0@,
            forall|a: int, b: int|
                0 <= a < evicted@.len() && 0 <= b < evicted@.len() && a != b
                    ==> #[trigger] evicted@[a].server_id@ != #[trigger] evicted@[b].server_id@,
        decreases snap@.len() - i,
    {
        let last = snap[i].1;
        let ghost before = evicted@;
        if elapsed(last, now) >= timeout {
            let id = snap[i].0.clone();
            servers.try_remove(id.as_str());
            evicted.push(Eviction { server_id: id, inactive_for: elapsed(last, now) });
            proof {
                let n = before.len() as int;
                assert(evicted@[n].server_id@ == snap@[i as int].0@);
                assert forall|e: int| 0 <= e < evicted@.len() implies exists|j: int|
                    0 <= j < i + 1 && snap@[j].0@ == (#[trigger] evicted@[e]).server_id@ by {
                    if e < n {
                        assert(evicted@[e] == before[e]);
                        let j = choose|j: int| 0 <= j < i && snap@[j].0@ == before[e].server_id@;
                        assert(0 <= j < i + 1 && snap@[j].0@ == evicted@[e].server_id@);
                    } else {
                        assert(snap@[i as int].0@ == evicted@[e].server_id@);
                    }
                }
                assert forall|j: int|
                    0 <= j < i + 1 && is_stale(#[trigger] snap@[j].1, now, timeout) implies exists|e: int|
                    0 <= e < evicted@.len() && evicted@[e].server_id@ == snap@[j].0@ by {
                    if j < i {
                        let e = choose|e: int| 0 <= e < before.len() && before[e].server_id@ == snap@[j].0@;
                        assert(evicted@[e] == before[e]);
                    } else {
                        assert(evicted@[n].server_id@ == snap@[j].0@);
                    }
                }
            }
        }
        i += 1;
    }
    assert(servers@ =~= swept(m, now, timeout));
    evicted
}

} // verus!
