//! The keyspace: keys mapped to values with an optional absolute expiry,
//! held in a concurrent map.
use dashmap::DashMap;
use vstd::prelude::*;

verus! {

/// `dashmap::DashMap`, opaque: what it holds is `store_contents`.
#[verifier::external_type_specification]
#[verifier::external_body]
#[verifier::reject_recursive_types(K)]
#[verifier::reject_recursive_types(V)]
#[verifier::reject_recursive_types(S)]
pub struct ExDashMap<K, V, S>(DashMap<K, V, S>);

/// The map a keyspace is kept in: key to (value, expiry in milliseconds
/// since the Unix epoch).
pub type Store = DashMap<Vec<u8>, (Vec<u8>, Option<u64>)>;

/// The mathematical value of a keyspace: key to (value, expiry).
pub type KeyMap = Map<Seq<u8>, (Seq<u8>, Option<u64>)>;

/// What a store holds.
pub uninterp spec fn store_contents(m: Store) -> KeyMap;

/// Relies on `DashMap::new`: the map starts empty.
#[verifier::external_body]
fn store_new() -> (r: Store)
    ensures
        store_contents(r) == KeyMap::empty(),
{
    DashMap::new()
}

/// Relies on `DashMap::insert`: the key's entry is replaced by the given one.
#[verifier::external_body]
fn store_insert(m: &mut Store, key: Vec<u8>, value: Vec<u8>, expiry: Option<u64>)
    ensures
        store_contents(*final(m)) == store_contents(*old(m)).insert(key@, (value@, expiry)),
{
    m.insert(key, (value, expiry));
}

/// Relies on `DashMap::get`: a copy of the key's entry, if there is one.
#[verifier::external_body]
fn store_get(m: &Store, key: &[u8]) -> (r: Option<(Vec<u8>, Option<u64>)>)
    ensures
        r is Some <==> store_contents(*m).contains_key(key@),
        r matches Some(e) ==> (e.0@, e.1) == store_contents(*m)[key@],
{
    m.get(key).map(|e| e.value().clone())
}

/// Relies on `DashMap::iter`: each key once, in an order the hashing decides.
#[verifier::external_body]
fn store_keys(m: &Store) -> (r: Vec<Vec<u8>>)
    ensures
        forall|i: int| 0 <= i < r.len() ==> store_contents(*m).contains_key(#[trigger] r@[i]@),
        forall|k: Seq<u8>| #[trigger]
            store_contents(*m).contains_key(k) ==> exists|i: int| 0 <= i < r.len() && r@[i]@ == k,
        forall|i: int, j: int| 0 <= i < j < r.len() ==> r@[i]@ != r@[j]@,
{
    m.iter().map(|e| e.key().clone()).collect()
}

/// The expiry of an entry set at `now` with time to live `px`, in
/// milliseconds; it saturates at the largest instant.
pub open spec fn expiry_of(now: u64, px: Option<u32>) -> Option<u64> {
    match px {
        Some(ms) => Some(
            if now + ms > u64::MAX {
                u64::MAX
            } else {
                (now + ms) as u64
            },
        ),
        None => None,
    }
}

/// Whether an entry with this expiry is still alive at `now`.
pub open spec fn alive(expiry: Option<u64>, now: u64) -> bool {
    match expiry {
        Some(t) => now < t,
        None => true,
    }
}

/// The value of `key` at `now`: present if the key has an entry that has
/// not expired.
pub open spec fn live_value(m: Map<Seq<u8>, (Seq<u8>, Option<u64>)>, key: Seq<u8>, now: u64) -> Option<
    Seq<u8>,
> {
    if m.contains_key(key) && alive(m[key].1, now) {
        Some(m[key].0)
    } else {
        None
    }
}

/// Keys mapped to values with optional expiry; expired entries stay until
/// overwritten, and read as absent.
pub struct Keyspace {
    map: Store,
}

impl View for Keyspace {
    type V = Map<Seq<u8>, (Seq<u8>, Option<u64>)>;

    closed spec fn view(&self) -> Map<Seq<u8>, (Seq<u8>, Option<u64>)> {
        store_contents(self.map)
    }
}

impl Keyspace {
    /// The keyspace holds finitely many keys.
    pub closed spec fn wf(&self) -> bool {
        self@.dom().finite()
    }

    /// An empty keyspace.
    pub fn new() -> (r: Keyspace)
        ensures
            r@ == KeyMap::empty(),
            r.wf(),
    {
        Keyspace { map: store_new() }
    }

    /// The value of `key` at instant `now` (milliseconds since the Unix
    /// epoch), if it has one that has not expired.
    pub fn get(&self, key: &[u8], now: u64) -> (r: Option<Vec<u8>>)
        ensures
            match live_value(self@, key@, now) {
                Some(v) => r matches Some(x) && x@ == v,
                None => r is None,
            },
    {
        match store_get(&self.map, key) {
            Some(entry) => {
                let (value, expiry) = entry;
                match expiry {
                    Some(t) => {
                        if now < t {
                            Some(value)
                        } else {
                            None
                        }
                    },
                    None => Some(value),
                }
            },
            None => None,
        }
    }

    /// Replaces the entry of `key`; with `px`, it expires `px` milliseconds
    /// after `now`.
    pub fn set(&mut self, key: Vec<u8>, value: Vec<u8>, px: Option<u32>, now: u64)
        requires
            old(self).wf(),
        ensures
            final(self)@ == old(self)@.insert(key@, (value@, expiry_of(now, px))),
            final(self).wf(),
    {
        let expiry = match px {
            Some(ms) => Some(now.saturating_add(ms as u64)),
            None => None,
        };
        store_insert(&mut self.map, key, value, expiry);
    }

    /// Adds an entry read from a snapshot, with its absolute expiry.
    pub fn insert_seeded(&mut self, key: Vec<u8>, value: Vec<u8>, expiry: Option<u64>)
        requires
            old(self).wf(),
        ensures
            final(self)@ == old(self)@.insert(key@, (value@, expiry)),
            final(self).wf(),
    {
        store_insert(&mut self.map, key, value, expiry);
    }

    /// Every key that has an entry, expired or not, each once.
    pub fn keys(&self) -> (r: Vec<Vec<u8>>)
        ensures
            forall|i: int| 0 <= i < r.len() ==> self@.contains_key(#[trigger] r@[i]@),
            forall|k: Seq<u8>| #[trigger]
                self@.contains_key(k) ==> exists|i: int| 0 <= i < r.len() && r@[i]@ == k,
            forall|i: int, j: int| 0 <= i < j < r.len() ==> r@[i]@ != r@[j]@,
    {
        store_keys(&self.map)
    }
}

} // verus!
