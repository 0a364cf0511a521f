//! The store as the one resource shared by all connections.
//!
//! Every operation takes the lock, works on a well-formed store, and releases
//! it: operations on the store are mutually exclusive, the lock invariant
//! keeps the store well-formed forever, and each operation acts on the store
//! state as of its critical section, which makes a read started after a
//! completed write observe that write.

use vstd::prelude::*;
use vstd::rwlock::{RwLock, RwLockPredicate};
use crate::dispatch::{Connection, process};
use crate::store::{EntryModel, KvStore, lookup};

verus! {

/// The lock invariant: the store between operations is always well-formed.
pub struct StorePred {}

impl RwLockPredicate<KvStore> for StorePred {
    open spec fn inv(self, v: KvStore) -> bool {
        v.wf()
    }
}

/// A store behind one coarse lock, shared by reference across all connection
/// handlers.
pub struct SharedStore {
    lock: RwLock<KvStore, StorePred>,
}

impl SharedStore {
    /// A fresh, empty shared store.
    pub fn new() -> SharedStore {
        SharedStore { lock: RwLock::new(KvStore::new(), Ghost(StorePred {})) }
    }

    /// Writes `key` under the lock, as `KvStore::set` says, against the store
    /// state of this operation's critical section.
    pub fn set(&self, key: Vec<u8>, value: Vec<u8>, ttl: Option<u64>, now: u64) {
        let (mut st, handle) = self.lock.acquire_write();
        st.set(key, value, ttl, now);
        handle.release_write(st);
    }

    /// Reads `key` under the lock: the value that `KvStore::get` returns
    /// against the store state of this operation's critical section.
    ///
    /// The `ensures` clause is existential, and deliberately weak: which
    /// store state a call observes depends on what other connections did
    /// before it took the lock, so no sequential contract can name it. The
    /// exact per-state contract is `KvStore::get`'s, which this call meets
    /// against the state it observed.
    pub fn get(&self, key: &[u8], now: u64) -> (r: Option<Vec<u8>>)
        ensures
            exists|m: Map<Seq<u8>, EntryModel>|
                match r {
                    Option::Some(v) => lookup(m, key@, now) == Option::Some(v@),
                    Option::None => lookup(m, key@, now) is None,
                },
    {
        let (st, handle) = self.lock.acquire_write();
        let r = st.get(key, now);
        let ghost m = st@;
        handle.release_write(st);
        proof {
            assert(match r {
                Option::Some(v) => lookup(m, key@, now) == Option::Some(v@),
                Option::None => lookup(m, key@, now) is None,
            });
        }
        r
    }

    /// Feeds one socket read to `conn`, executing every complete frame
    /// against the shared store inside one critical section. The replies and
    /// the connection's new state are exactly those of processing the
    /// buffered bytes against the store state `m` of that critical section.
    pub fn feed(&self, conn: &mut Connection, data: &[u8], now: u64) -> (out: Vec<u8>)
        ensures
            old(conn).closed ==> *final(conn) == *old(conn) && out@ == Seq::<u8>::empty(),
            !old(conn).closed ==> exists|m: Map<Seq<u8>, EntryModel>|
                {
                    let p = #[trigger] process(old(conn).buf@ + data@, m, now);
                    &&& out@ == p.out
                    &&& final(conn).buf@ == p.rest
                    &&& final(conn).closed == p.closed
                },
    {
        let (mut st, handle) = self.lock.acquire_write();
        let ghost m = st@;
        let out = conn.feed(data, &mut st, now);
        handle.release_write(st);
        out
    }
}

} // verus!
