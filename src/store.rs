use vstd::prelude::*;
use dashmap::mapref::entry::Entry;
use dashmap::DashMap;

verus! {

#[verifier::external_type_specification]
#[verifier::external_body]
#[verifier::reject_recursive_types(K)]
#[verifier::reject_recursive_types(V)]
#[verifier::reject_recursive_types(S)]
pub struct ExDashMap<K, V, S>(DashMap<K, V, S>);

/// The concurrent map that holds the registry: server id to last activity.
pub type ServerMap = DashMap<String, u64>;

/// The abstract registry: server id to the time of its last activity.
pub type Registry = Map<Seq<char>, u64>;

/// What a concurrent map of server ids to last-activity times holds.
pub uninterp spec fn registry_contents(m: ServerMap) -> Map<Seq<char>, u64>;

/// Relies on `DashMap::new`: a new map holds no entry.
#[verifier::external_body]
fn map_new() -> (r: ServerMap)
    ensures
        registry_contents(r) == Registry::empty(),
{
    DashMap::new()
}

/// Relies on `DashMap::entry` and `VacantEntry::insert`: the entry API holds
/// the key's shard lock, so the value is stored only where the key was absent.
#[verifier::external_body]
fn map_insert_absent(m: &mut ServerMap, key: String, value: u64) -> (r: bool)
    ensures
        r == !registry_contents(*old(m)).contains_key(key@),
        registry_contents(*final(m)) == (if r {
            registry_contents(*old(m)).insert(key@, value)
        } else {
            registry_contents(*old(m))
        }),
{
    match m.entry(key) {
        Entry::Occupied(_) => false,
        Entry::Vacant(e) => {
            e.insert(value);
            true
        },
    }
}

/// Relies on `DashMap::remove`: it removes the key's entry and returns it, if
/// there was one.
#[verifier::external_body]
fn map_remove(m: &mut ServerMap, key: &str) -> (r: bool)
    ensures
        r == registry_contents(*old(m)).contains_key(key@),
        registry_contents(*final(m)) == registry_contents(*old(m)).remove(key@),
{
    m.remove(key).is_some()
}

/// Relies on `DashMap::contains_key`.
#[verifier::external_body]
fn map_contains(m: &ServerMap, key: &str) -> (r: bool)
    ensures
        r == registry_contents(*m).contains_key(key@),
{
    m.contains_key(key)
}

/// Relies on `DashMap::get`: the value stored under the key, if any.
#[verifier::external_body]
fn map_get(m: &ServerMap, key: &str) -> (r: Option<u64>)
    ensures
        r == (if registry_contents(*m).contains_key(key@) {
            Some(registry_contents(*m)[key@])
        } else {
            None::<u64>
        }),
{
    m.get(key).map(|e| *e.value())
}

/// Relies on `DashMap::iter`: with no other handle writing to the map, it
/// yields each entry exactly once, in an unspecified order.
#[verifier::external_body]
fn map_entries(m: &ServerMap) -> (r: Vec<(String, u64)>)
    ensures
        forall|i: int|
            0 <= i < r@.len() ==> registry_contents(*m).contains_key(#[trigger] r@[i].0@)
                && registry_contents(*m)[r@[i].0@] == r@[i].1,
        forall|k: Seq<char>|
            registry_contents(*m).contains_key(k) ==> exists|i: int|
                0 <= i < r@.len() && #[trigger] r@[i].0@ == k,
        forall|i: int, j: int|
            0 <= i < r@.len() && 0 <= j < r@.len() && i != j ==> #[trigger] r@[i].0@
                != #[trigger] r@[j].0@,
{
    m.iter().map(|e| (e.key().clone(), *e.value())).collect()
}

/// Information about one registered server.
pub struct ServerInfo {
    /// Time of the server's last activity (its registration).
    pub last_activity: u64,
}

/// The registry store: server id to the time of its last activity.
pub struct Servers {
    map: ServerMap,
}

impl View for Servers {
    type V = Map<Seq<char>, u64>;

    closed spec fn view(&self) -> Map<Seq<char>, u64> {
        registry_contents(self.map)
    }
}

impl Servers {
    /// An empty store.
    pub fn new() -> (s: Servers)
        ensures
            s@ == Registry::empty(),
    {
        Servers { map: map_new() }
    }

    /// Inserts `id` with its last activity `now` only if it is absent; returns
    /// whether it was inserted.
    pub fn try_insert(&mut self, id: String, now: u64) -> (r: bool)
        ensures
            r == !old(self)@.contains_key(id@),
            final(self)@ == (if r {
                old(self)@.insert(id@, now)
            } else {
                old(self)@
            }),
    {
        map_insert_absent(&mut self.map, id, now)
    }

    /// Removes `id` only if it is present; returns whether it was removed.
    pub fn try_remove(&mut self, id: &str) -> (r: bool)
        ensures
            r == old(self)@.contains_key(id@),
            final(self)@ == old(self)@.remove(id@),
    {
        map_remove(&mut self.map, id)
    }

    /// Whether `id` is registered.
    pub fn contains(&self, id: &str) -> (r: bool)
        ensures
            r == self@.contains_key(id@),
    {
        map_contains(&self.map, id)
    }

    /// The entry of `id`, if it is registered.
    pub fn server_info(&self, id: &str) -> (r: Option<ServerInfo>)
        ensures
            r is Some <==> self@.contains_key(id@),
            r is Some ==> r->0.last_activity == self@[id@],
    {
        match map_get(&self.map, id) {
            Some(t) => Some(ServerInfo { last_activity: t }),
            None => None,
        }
    }

    /// Every entry once, as pairs of id and last activity, in no fixed order.
    pub fn snapshot(&self) -> (r: Vec<(String, u64)>)
        ensures
            forall|i: int|
                0 <= i < r@.len() ==> self@.contains_key(#[trigger] r@[i].0@) && self@[r@[i].0@]
                    == r@[i].1,
            forall|k: Seq<char>|
                self@.contains_key(k) ==> exists|i: int| 0 <= i < r@.len() && #[trigger] r@[i].0@ == k,
            forall|i: int, j: int|
                0 <= i < r@.len() && 0 <= j < r@.len() && i != j ==> #[trigger] r@[i].0@
                    != #[trigger] r@[j].0@,
    {
        map_entries(&self.map)
    }
}

} // verus!
