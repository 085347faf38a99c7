use vstd::prelude::*;
use transient_hashmap::TransientHashMap;
use crate::addr::{Endpoint, IpAddr, IpView, ipv4_key, ipv4_key_of, lemma_ipv4_key_injective};

verus! {

broadcast use vstd::array::group_array_axioms;

/// A `TransientHashMap` from virtual address to session: a map whose entries expire a
/// fixed time after their last use, when it is pruned. Verus sees only its entries.
#[verifier::external_body]
pub struct SessionMap {
    inner: TransientHashMap<u32, (u64, Endpoint)>,
}

/// The entries that a session map holds: virtual address (as a number) to the session's
/// token and the client's transport address.
pub uninterp spec fn table_entries(m: SessionMap) -> Map<u32, (u64, Endpoint)>;

/// The table without any session.
pub open spec fn no_sessions() -> Map<u32, (u64, Endpoint)> {
    Map::empty()
}

/// Relies on `TransientHashMap::new`: a map with no entries, whose entries expire
/// `lifetime` seconds after their last use.
#[verifier::external_body]
fn table_new(lifetime: u32) -> (r: SessionMap)
    ensures
        table_entries(r) == no_sessions(),
{
    SessionMap { inner: TransientHashMap::new(lifetime) }
}

/// Relies on `TransientHashMap::insert`: it sets the entry of `key` in the backing map
/// (and restarts its lifetime).
#[verifier::external_body]
fn table_insert(m: &mut SessionMap, key: u32, value: (u64, Endpoint))
    ensures
        table_entries(*final(m)) == table_entries(*old(m)).insert(key, value),
{
    m.inner.insert(key, value);
}

/// Relies on `TransientHashMap::get`: it returns the entry of `key` in the backing map
/// and changes no entry (it only restarts the lifetime of one that is there).
#[verifier::external_body]
fn table_get(m: &mut SessionMap, key: u32) -> (r: Option<(u64, Endpoint)>)
    ensures
        r == table_entries(*old(m)).get(key),
        table_entries(*final(m)) == table_entries(*old(m)),
{
    m.inner.get(&key).copied()
}

/// Relies on `TransientHashMap::prune`: it removes from the backing map the entries whose
/// lifetime is over, by the clock, and returns their keys.
#[verifier::external_body]
fn table_prune(m: &mut SessionMap) -> (r: Vec<u32>)
    ensures
        table_entries(*final(m)) == table_entries(*old(m)).remove_keys(r@.to_set()),
{
    m.inner.prune()
}

/// Lowest and highest host number that the pool hands out.
pub const FIRST_HOST_ID: u8 = 2;
pub const LAST_HOST_ID: u8 = 253;

/// Seconds that a session lives after its last use.
pub const SESSION_LIFETIME: u32 = 60;

/// The address in the subnet of `base` whose last octet is `id`.
pub open spec fn address_of(base: Seq<u8>, id: u8) -> Seq<u8> {
    base.update(3, id)
}

/// The host numbers that releasing the keys of `removed`, in order, appends to `pool`:
/// the host number of each key of the subnet of `base` that lies in 2..=253 and is not
/// free by then.
pub open spec fn freed_ids(base: Seq<u8>, pool: Seq<u8>, removed: Seq<u32>) -> Seq<u8>
    decreases removed.len(),
{
    if removed.len() == 0 {
        Seq::empty()
    } else {
        let earlier = freed_ids(base, pool, removed.drop_last());
        let id = removed.last() as int - ipv4_key_of(address_of(base, 0)) as int;
        if FIRST_HOST_ID <= id <= LAST_HOST_ID && !(pool + earlier).contains(id as u8) {
            earlier.push(id as u8)
        } else {
            earlier
        }
    }
}

/// The pool as it starts: host numbers 2 to 253, in ascending order, so that the
/// highest is handed out first.
pub open spec fn initial_pool() -> Seq<u8> {
    Seq::new((LAST_HOST_ID - FIRST_HOST_ID + 1) as nat, |i: int| (i + FIRST_HOST_ID) as u8)
}

/// The server's address pool and session table. A host number is either free, in the
/// pool, or held by the session of its address: it is never handed out twice while a
/// session holds it, and it returns to the pool when that session expires.
pub struct Sessions {
    base: [u8; 4],
    available_ids: Vec<u8>,
    clients: SessionMap,
}

impl Sessions {
    /// The subnet's address, whose last octet each session replaces.
    pub closed spec fn base(&self) -> Seq<u8> {
        self.base@
    }

    /// Free host numbers; the last is handed out next.
    pub closed spec fn pool(&self) -> Seq<u8> {
        self.available_ids@
    }

    /// Live sessions by virtual address.
    pub closed spec fn table(&self) -> Map<u32, (u64, Endpoint)> {
        table_entries(self.clients)
    }

    pub open spec fn wf(&self) -> bool {
        &&& self.base().len() == 4
        &&& self.pool().no_duplicates()
        &&& forall|i: int| 0 <= i < self.pool().len() ==> FIRST_HOST_ID <= #[trigger] self.pool()[i] <= LAST_HOST_ID
        &&& forall|i: int| 0 <= i < self.pool().len()
            ==> !self.table().contains_key(ipv4_key_of(address_of(self.base(), #[trigger] self.pool()[i])))
    }

    /// An empty table and a full pool for the subnet of `base`.
    pub fn new(base: [u8; 4]) -> (r: Sessions)
        ensures
            r.wf(),
            r.base() == base@,
            r.pool() == initial_pool(),
            r.table() == no_sessions(),
    {
        let mut ids: Vec<u8> = Vec::new();
        let mut id: u8 = FIRST_HOST_ID;
        while id <= LAST_HOST_ID
            invariant
                FIRST_HOST_ID <= id <= LAST_HOST_ID + 1,
                ids@.len() == id - FIRST_HOST_ID,
                forall|i: int| 0 <= i < ids@.len() ==> #[trigger] ids@[i] == (i + FIRST_HOST_ID) as u8,
            decreases LAST_HOST_ID + 1 - id,
        {
            ids.push(id);
            id = id + 1;
        }
        assert(ids@ =~= initial_pool());
        Sessions { base, available_ids: ids, clients: table_new(SESSION_LIFETIME) }
    }

    /// Takes the next free host number, binds its address to `token` and the client's
    /// transport address `from`, and returns the address; `None` when the pool is empty.
    /// The address is one that no live session holds.
    pub fn allocate(&mut self, from: Endpoint, token: u64) -> (r: Option<IpAddr>)
        requires
            old(self).wf(),
        ensures
            final(self).wf(),
            final(self).base() == old(self).base(),
            old(self).pool().len() == 0 ==> r is None && final(self).pool() == old(self).pool()
                && final(self).table() == old(self).table(),
            old(self).pool().len() > 0 ==> (r matches Some(IpAddr::V4(o))
                && o@ == address_of(old(self).base(), old(self).pool().last())
                && !old(self).table().contains_key(ipv4_key_of(o@))
                && final(self).pool() == old(self).pool().drop_last()
                && final(self).table() == old(self).table().insert(ipv4_key_of(o@), (token, from))),
    {
        let id = match self.available_ids.pop() {
            Some(id) => id,
            None => {
                return None;
            },
        };
        let mut o = self.base;
        o[3] = id;
        assert(o@ =~= address_of(old(self).base(), id));
        let key = ipv4_key(&o);
        table_insert(&mut self.clients, key, (token, from));
        proof {
            let p = old(self).pool();
            assert(p[p.len() - 1] == id);
            assert forall|i: int| 0 <= i < self.pool().len()
                implies !self.table().contains_key(ipv4_key_of(address_of(self.base(), #[trigger] self.pool()[i]))) by {
                let y = self.pool()[i];
                assert(p[i] == y);
                assert(y != id);
                if ipv4_key_of(address_of(self.base(), y)) == key {
                    lemma_ipv4_key_injective(address_of(self.base(), y), o@);
                    assert(address_of(self.base(), y)[3] == y);
                }
            }
            assert(self.pool() =~= p.drop_last());
        }
        Some(IpAddr::V4(o))
    }

    /// The session of virtual address `ip`; none for an IPv6 address.
    pub fn lookup(&mut self, ip: &IpAddr) -> (r: Option<(u64, Endpoint)>)
        requires
            old(self).wf(),
        ensures
            final(self).wf(),
            final(self).base() == old(self).base(),
            final(self).pool() == old(self).pool(),
            final(self).table() == old(self).table(),
            r == match ip@ {
                IpView::V4(o) => old(self).table().get(ipv4_key_of(o)),
                IpView::V6(_) => None,
            },
    {
        match ip {
            IpAddr::V4(o) => {
                let key = ipv4_key(o);
                table_get(&mut self.clients, key)
            },
            IpAddr::V6(_) => None,
        }
    }

    /// Ends the sessions whose lifetime is over, returns their keys, and gives their host
    /// numbers back to the pool.
    pub fn expire(&mut self) -> (r: Vec<u32>)
        requires
            old(self).wf(),
        ensures
            final(self).wf(),
            final(self).base() == old(self).base(),
            final(self).table() == old(self).table().remove_keys(r@.to_set()),
            final(self).pool() == old(self).pool() + freed_ids(old(self).base(), old(self).pool(), r@),
    {
        let removed = table_prune(&mut self.clients);
        self.release(removed.as_slice());
        removed
    }

    /// Gives back to the pool the host numbers of the ended sessions whose keys are in
    /// `removed`, in order: a key of this subnet whose host number lies in 2..=253 and is
    /// not free yet.
    pub fn release(&mut self, removed: &[u32])
        requires
            old(self).wf(),
            forall|i: int| 0 <= i < removed@.len() ==> !old(self).table().contains_key(#[trigger] removed@[i]),
        ensures
            final(self).wf(),
            final(self).base() == old(self).base(),
            final(self).table() == old(self).table(),
            final(self).pool() == old(self).pool() + freed_ids(old(self).base(), old(self).pool(), removed@),
    {
        let mut first = self.base;
        first[3] = 0;
        let low = ipv4_key(&first);
        let mut i: usize = 0;
        proof {
            assert(removed@.take(0) =~= Seq::<u32>::empty());
            assert(old(self).pool() + Seq::<u8>::empty() =~= old(self).pool());
        }
        while i < removed.len()
            invariant
                self.wf(),
                self.base() == old(self).base(),
                self.table() == old(self).table(),
                forall|j: int| 0 <= j < removed@.len() ==> !old(self).table().contains_key(#[trigger] removed@[j]),
                self.pool() == old(self).pool() + freed_ids(old(self).base(), old(self).pool(), removed@.take(i as int)),
                first@ == address_of(self.base(), 0),
                low == ipv4_key_of(first@),
                i <= removed@.len(),
            decreases removed@.len() - i,
        {
            let key = removed[i];
            let ghost before = self.pool();
            proof {
                assert(removed@.take(i + 1).drop_last() =~= removed@.take(i as int));
                assert(removed@.take(i + 1).last() == key);
            }
            if key >= low && key - low >= FIRST_HOST_ID as u32 && key - low <= LAST_HOST_ID as u32 {
                let id = (key - low) as u8;
                if !self.holds(id) {
                    self.available_ids.push(id);
                    proof {
                        let a = address_of(self.base(), id);
                        assert(ipv4_key_of(a) == key);
                        assert forall|j: int| 0 <= j < self.pool().len()
                            implies !self.table().contains_key(ipv4_key_of(address_of(self.base(), #[trigger] self.pool()[j]))) by {
                            if j < before.len() {
                                assert(self.pool()[j] == before[j]);
                            }
                        }
                        assert forall|j: int, k: int| 0 <= j < k < self.pool().len() implies self.pool()[j] != self.pool()[k] by {
                            if k == before.len() {
                                assert(self.pool()[j] == before[j]);
                            } else {
                                assert(self.pool()[j] == before[j]);
                                assert(self.pool()[k] == before[k]);
                            }
                        }
                        let earlier = freed_ids(old(self).base(), old(self).pool(), removed@.take(i as int));
                        assert(old(self).pool() + earlier == before);
                        assert(self.pool() =~= old(self).pool() + earlier.push(id));
                    }
                }
            }
            i = i + 1;
        }
        proof {
            assert(removed@.take(removed@.len() as int) =~= removed@);
        }
    }

    /// Whether `id` is free.
    fn holds(&self, id: u8) -> (r: bool)
        ensures
            r == self.pool().contains(id),
    {
        let mut i: usize = 0;
        while i < self.available_ids.len()
            invariant
                i <= self.pool().len(),
                forall|j: int| 0 <= j < i ==> self.pool()[j] != id,
            decreases self.pool().len() - i,
        {
            if self.available_ids[i] == id {
                return true;
            }
            i = i + 1;
        }
        false
    }
}

} // verus!
