//! The key-value store with per-entry millisecond expiry.
//!
//! The store models a mapping from key to entry, an entry being a value with
//! an optional absolute expiry time. An entry whose expiry has elapsed is
//! never returned by a read, even while still physically present: expiry is
//! lazy. A write replaces the whole entry for its key.

use vstd::prelude::*;

verus! {

/// One stored entry: the value and, when the write carried a TTL, the
/// absolute millisecond time at which it expires.
pub struct Entry {
    pub value: Vec<u8>,
    pub expires_at: Option<u64>,
}

/// Mathematical model of an [`Entry`].
pub struct EntryModel {
    pub value: Seq<u8>,
    pub expires_at: Option<u64>,
}

impl View for Entry {
    type V = EntryModel;

    open spec fn view(&self) -> EntryModel {
        EntryModel { value: self.value@, expires_at: self.expires_at }
    }
}

pub struct Slot {
    pub key: Vec<u8>,
    pub entry: Entry,
}

/// Whether `e` is readable at time `now`: an entry without expiry always is,
/// one with expiry only until the expiry time has elapsed.
pub open spec fn live(e: EntryModel, now: u64) -> bool {
    match e.expires_at {
        Option::None => true,
        Option::Some(t) => now <= t,
    }
}

/// What a read of `k` at time `now` returns from the mapping `m`: the stored
/// value if the key is present and not expired, nothing otherwise.
pub open spec fn lookup(m: Map<Seq<u8>, EntryModel>, k: Seq<u8>, now: u64) -> Option<Seq<u8>> {
    if m.contains_key(k) && live(m[k], now) {
        Option::Some(m[k].value)
    } else {
        Option::None
    }
}

/// The absolute expiry time a write at `now` with TTL `ttl` gives its entry;
/// a time that would overflow saturates to the largest representable one.
pub open spec fn expiry(ttl: Option<u64>, now: u64) -> Option<u64> {
    match ttl {
        Option::None => Option::None,
        Option::Some(t) => Option::Some(
            if now + t > u64::MAX {
                u64::MAX
            } else {
                (now + t) as u64
            },
        ),
    }
}

/// The entry a write of `value` with TTL `ttl` at time `now` stores.
pub open spec fn fresh_entry(value: Seq<u8>, ttl: Option<u64>, now: u64) -> EntryModel {
    EntryModel { value, expires_at: expiry(ttl, now) }
}

pub open spec fn slots_model(s: Seq<Slot>) -> Map<Seq<u8>, EntryModel>
    decreases s.len(),
{
    if s.len() == 0 {
        Map::empty()
    } else {
        slots_model(s.drop_last()).insert(s.last().key@, s.last().entry@)
    }
}

pub open spec fn unique_keys(s: Seq<Slot>) -> bool {
    forall|i: int, j: int| 0 <= i < j < s.len() ==> s[i].key@ != s[j].key@
}

/// The shared mapping from key to entry. Keys are unique; reads are answered
/// from the mapping with lazy expiry; a write replaces the whole entry for
/// its key.
pub struct KvStore {
    pub slots: Vec<Slot>,
}

impl View for KvStore {
    type V = Map<Seq<u8>, EntryModel>;

    open spec fn view(&self) -> Map<Seq<u8>, EntryModel> {
        slots_model(self.slots@)
    }
}

proof fn lemma_model_domain(s: Seq<Slot>, k: Seq<u8>)
    ensures
        slots_model(s).contains_key(k) <==> exists|i: int| 0 <= i < s.len() && s[i].key@ == k,
    decreases s.len(),
{
    if s.len() > 0 {
        lemma_model_domain(s.drop_last(), k);
        if slots_model(s).contains_key(k) {
            if s.last().key@ == k {
                assert(s[s.len() - 1].key@ == k);
            } else {
                let i = choose|i: int| 0 <= i < s.len() - 1 && s.drop_last()[i].key@ == k;
                assert(s[i].key@ == k);
            }
        }
        if exists|i: int| 0 <= i < s.len() && s[i].key@ == k {
            let i = choose|i: int| 0 <= i < s.len() && s[i].key@ == k;
            if i < s.len() - 1 {
                assert(s.drop_last()[i].key@ == k);
            }
        }
    }
}

proof fn lemma_model_index(s: Seq<Slot>, i: int)
    requires
        unique_keys(s),
        0 <= i < s.len(),
    ensures
        slots_model(s).contains_key(s[i].key@),
        slots_model(s)[s[i].key@] == s[i].entry@,
    decreases s.len(),
{
    if i == s.len() - 1 {
    } else {
        assert(unique_keys(s.drop_last()));
        assert(s.drop_last()[i] == s[i]);
        lemma_model_index(s.drop_last(), i);
        assert(s[i].key@ != s.last().key@);
    }
}

proof fn lemma_model_push(s: Seq<Slot>, x: Slot)
    ensures
        slots_model(s.push(x)) == slots_model(s).insert(x.key@, x.entry@),
{
    assert(s.push(x).drop_last() =~= s);
    assert(s.push(x).last() == x);
}

proof fn lemma_model_remove(s: Seq<Slot>, i: int)
    requires
        unique_keys(s),
        0 <= i < s.len(),
    ensures
        slots_model(s.remove(i)) =~= slots_model(s).remove(s[i].key@),
    decreases s.len(),
{
    if i == s.len() - 1 {
        assert(s.remove(i) =~= s.drop_last());
        lemma_model_domain(s.drop_last(), s[i].key@);
        assert(forall|j: int| 0 <= j < s.len() - 1 ==> s.drop_last()[j].key@ != s[i].key@);
        assert(!slots_model(s.drop_last()).contains_key(s[i].key@));
        assert(slots_model(s.drop_last()) =~= slots_model(s).remove(s[i].key@));
    } else {
        assert(unique_keys(s.drop_last()));
        assert(s.drop_last()[i] == s[i]);
        lemma_model_remove(s.drop_last(), i);
        assert(s.remove(i).drop_last() =~= s.drop_last().remove(i));
        assert(s.remove(i).last() == s.last());
        assert(s[i].key@ != s.last().key@);
        assert(slots_model(s.remove(i)) =~= slots_model(s).remove(s[i].key@));
    }
}

proof fn lemma_unique_remove(s: Seq<Slot>, i: int)
    requires
        unique_keys(s),
        0 <= i < s.len(),
    ensures
        unique_keys(s.remove(i)),
        forall|j: int| 0 <= j < s.remove(i).len() ==> s.remove(i)[j].key@ != s[i].key@,
{
    let s1 = s.remove(i);
    assert forall|a: int, b: int| 0 <= a < b < s1.len() implies s1[a].key@ != s1[b].key@ by {
        if b < i {
        } else if a < i {
            assert(s1[b] == s[b + 1]);
        } else {
            assert(s1[a] == s[a + 1]);
            assert(s1[b] == s[b + 1]);
        }
    }
    assert forall|j: int| 0 <= j < s1.len() implies s1[j].key@ != s[i].key@ by {
        if j < i {
            assert(s1[j] == s[j]);
        } else {
            assert(s1[j] == s[j + 1]);
        }
    }
}

/// Whether the byte strings `a` and `b` are equal.
pub fn bytes_eq(a: &[u8], b: &[u8]) -> (r: bool)
    ensures
        r == (a@ == b@),
{
    if a.len() != b.len() {
        return false;
    }
    let mut i: usize = 0;
    while i < a.len()
        invariant
            i <= a@.len(),
            a@.len() == b@.len(),
            forall|j: int| 0 <= j < i ==> a@[j] == b@[j],
        decreases a@.len() - i,
    {
        if a[i] != b[i] {
            return false;
        }
        i = i + 1;
    }
    proof {
        assert(a@ =~= b@);
    }
    true
}

impl KvStore {
    /// Every key occupies one slot: what the mapping says of a key is what
    /// its slot holds.
    pub open spec fn wf(&self) -> bool {
        unique_keys(self.slots@)
    }

    /// An empty store.
    pub fn new() -> (r: KvStore)
        ensures
            r.wf(),
            r@ == Map::<Seq<u8>, EntryModel>::empty(),
    {
        KvStore { slots: Vec::new() }
    }

    /// Reads `key` at time `now`: the stored value, or nothing when the key
    /// is absent or its entry has expired.
    pub fn get(&self, key: &[u8], now: u64) -> (r: Option<Vec<u8>>)
        requires
            self.wf(),
        ensures
            match r {
                Option::Some(v) => lookup(self@, key@, now) == Option::Some(v@),
                Option::None => lookup(self@, key@, now) is None,
            },
    {
        let n = self.slots.len();
        let mut i: usize = 0;
        while i < n
            invariant
                self.wf(),
                n == self.slots@.len(),
                i <= n,
                forall|j: int| 0 <= j < i ==> self.slots@[j].key@ != key@,
            decreases n - i,
        {
            if bytes_eq(self.slots[i].key.as_slice(), key) {
                proof {
                    lemma_model_index(self.slots@, i as int);
                }
                let slot = &self.slots[i];
                match slot.entry.expires_at {
                    Option::Some(t) => {
                        if now > t {
                            return Option::None;
                        }
                    },
                    Option::None => {},
                }
                return Option::Some(vstd::slice::slice_to_vec(slot.entry.value.as_slice()));
            }
            i = i + 1;
        }
        proof {
            lemma_model_domain(self.slots@, key@);
        }
        Option::None
    }

    /// Writes `key`: inserts or wholesale-replaces its entry with `value` and
    /// the expiry that `ttl` milliseconds from `now` gives.
    #[verifier::loop_isolation(false)]
    pub fn set(&mut self, key: Vec<u8>, value: Vec<u8>, ttl: Option<u64>, now: u64)
        requires
            old(self).wf(),
        ensures
            final(self).wf(),
            final(self)@ == old(self)@.insert(key@, fresh_entry(value@, ttl, now)),
    {
        let expires_at: Option<u64> = match ttl {
            Option::Some(t) => Option::Some(now.saturating_add(t)),
            Option::None => Option::None,
        };
        let ghost ek = key@;
        let ghost ee = fresh_entry(value@, ttl, now);
        let ghost m0 = self@;
        let n = self.slots.len();
        let mut i: usize = 0;
        while i < n
            invariant
                self.wf(),
                self@ == m0,
                n == self.slots@.len(),
                i <= n,
                forall|j: int| 0 <= j < i ==> self.slots@[j].key@ != ek,
            decreases n - i,
        {
            if bytes_eq(self.slots[i].key.as_slice(), key.as_slice()) {
                let ghost pre = self.slots@;
                proof {
                    lemma_model_remove(pre, i as int);
                    lemma_model_index(pre, i as int);
                    lemma_unique_remove(pre, i as int);
                }
                let _old_slot = self.slots.remove(i);
                let ghost s1 = self.slots@;
                self.slots.push(Slot { key, entry: Entry { value, expires_at } });
                proof {
                    assert(self.slots@ == s1.push(self.slots@.last()));
                    assert(self.slots@.last().key@ == ek);
                    assert(self.slots@.last().entry@ == ee);
                    lemma_model_push(s1, self.slots@.last());
                    assert(self@ =~= m0.insert(ek, ee));
                }
                return ;
            }
            i = i + 1;
        }
        let ghost s1 = self.slots@;
        self.slots.push(Slot { key, entry: Entry { value, expires_at } });
        proof {
            assert(self.slots@ == s1.push(self.slots@.last()));
            assert(self.slots@.last().key@ == ek);
            assert(self.slots@.last().entry@ == ee);
            lemma_model_push(s1, self.slots@.last());
            assert(self@ =~= m0.insert(ek, ee));
        }
    }

    /// Scans for expired entries and removes them, to reclaim memory. A pure
    /// optimization: what a read observes never changes, since a read already
    /// treats an expired entry as absent.
    #[verifier::loop_isolation(false)]
    pub fn sweep(&mut self, now: u64)
        requires
            old(self).wf(),
        ensures
            final(self).wf(),
            forall|k: Seq<u8>| final(self)@.contains_key(k) <==> old(self)@.contains_key(k)
                && live(old(self)@[k], now),
            forall|k: Seq<u8>| #[trigger] final(self)@.contains_key(k)
                ==> final(self)@[k] == old(self)@[k],
            forall|k: Seq<u8>| lookup(final(self)@, k, now) == lookup(old(self)@, k, now),
    {
        let mut i: usize = 0;
        while i < self.slots.len()
            invariant
                self.wf(),
                i <= self.slots@.len(),
                forall|j: int| 0 <= j < i ==> live(self.slots@[j].entry@, now),
                forall|k: Seq<u8>| #[trigger] self@.contains_key(k)
                    ==> old(self)@.contains_key(k) && self@[k] == old(self)@[k],
                forall|k: Seq<u8>| old(self)@.contains_key(k) && live(#[trigger] old(self)@[k],
                    now) ==> self@.contains_key(k),
            decreases self.slots@.len() - i,
        {
            let expired = match self.slots[i].entry.expires_at {
                Option::Some(t) => now > t,
                Option::None => false,
            };
            if expired {
                let ghost pre = self.slots@;
                let ghost pm = self@;
                let ghost kk = pre[i as int].key@;
                proof {
                    lemma_model_index(pre, i as int);
                    lemma_model_remove(pre, i as int);
                    lemma_unique_remove(pre, i as int);
                }
                let _expired_slot = self.slots.remove(i);
                proof {
                    assert(self@ == pm.remove(kk));
                    assert(!live(old(self)@[kk], now));
                    assert forall|k: Seq<u8>|
                        old(self)@.contains_key(k) && live(#[trigger] old(self)@[k], now)
                            implies self@.contains_key(k) by {
                        assert(pm.contains_key(k));
                        assert(k != kk);
                    }
                    assert(forall|j: int| 0 <= j < i ==> self.slots@[j] == pre[j]);
                }
            } else {
                i = i + 1;
            }
        }
        proof {
            assert forall|k: Seq<u8>| #[trigger] self@.contains_key(k) implies live(
                old(self)@[k],
                now,
            ) by {
                lemma_model_domain(self.slots@, k);
                let j = choose|j: int| 0 <= j < self.slots@.len() && self.slots@[j].key@ == k;
                lemma_model_index(self.slots@, j);
            }
        }
    }
}

} // verus!
