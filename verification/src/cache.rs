//! A bounded cache whose entries expire.

use vstd::prelude::*;

verus! {

/// What an entry is found by.
pub type CacheKey = (u128, u128);

/// One cached value.
#[derive(Debug)]
pub struct CacheEntry<V> {
    pub key: CacheKey,
    pub value: V,
    /// The instant from which on the value no longer counts, in nanoseconds of
    /// the monotonic clock.
    pub expires_at: u64,
}

/// The entry under `key`.
pub open spec fn find_entry<V>(entries: Seq<CacheEntry<V>>, key: CacheKey) -> Option<CacheEntry<V>>
    decreases entries.len(),
{
    if entries.len() == 0 {
        None
    } else if entries.last().key == key {
        Some(entries.last())
    } else {
        find_entry(entries.drop_last(), key)
    }
}

/// No two entries share a key.
pub open spec fn distinct_keys<V>(entries: Seq<CacheEntry<V>>) -> bool {
    forall|i: int, j: int|
        0 <= i < j < entries.len() ==> (#[trigger] entries[i]).key != (#[trigger] entries[j]).key
}

/// `entries` with `e` under its key.
pub open spec fn put_entry<V>(entries: Seq<CacheEntry<V>>, e: CacheEntry<V>) -> Seq<CacheEntry<V>> {
    if find_entry(entries, e.key) is Some {
        entries.map_values(
            |x: CacheEntry<V>|
                if x.key == e.key {
                    e
                } else {
                    x
                },
        )
    } else {
        entries.push(e)
    }
}

/// An entry is found exactly when one has the key, and it is that one.
pub proof fn lemma_find_entry<V>(entries: Seq<CacheEntry<V>>, key: CacheKey)
    ensures
        match find_entry(entries, key) {
            Some(e) => e.key == key && exists|i: int|
                0 <= i < entries.len() && #[trigger] entries[i] == e,
            None => forall|i: int| 0 <= i < entries.len() ==> (#[trigger] entries[i]).key != key,
        },
    decreases entries.len(),
{
    if entries.len() > 0 {
        let rest = entries.drop_last();
        if entries.last().key == key {
            assert(entries[entries.len() - 1] == entries.last());
        } else {
            lemma_find_entry(rest, key);
            match find_entry(rest, key) {
                Some(e) => {
                    let i = choose|i: int| 0 <= i < rest.len() && #[trigger] rest[i] == e;
                    assert(entries[i] == e);
                },
                None => {
                    assert forall|i: int| 0 <= i < entries.len() implies (
                    #[trigger] entries[i]).key != key by {
                        if i < entries.len() - 1 {
                            assert(rest[i].key != key);
                        }
                    }
                },
            }
        }
    }
}

/// What is found after a put: the new entry under its key, and what was there
/// before under any other.
pub proof fn lemma_find_put<V>(entries: Seq<CacheEntry<V>>, e: CacheEntry<V>, key: CacheKey)
    ensures
        find_entry(put_entry(entries, e), key) == if key == e.key {
            Some(e)
        } else {
            find_entry(entries, key)
        },
    decreases entries.len(),
{
    if find_entry(entries, e.key) is None {
        assert(entries.push(e).drop_last() =~= entries);
    } else {
        let f = |x: CacheEntry<V>|
            if x.key == e.key {
                e
            } else {
                x
            };
        lemma_find_mapped(entries, e, f, key);
        lemma_find_entry(entries, key);
        assert(put_entry(entries, e) =~= entries.map_values(f));
    }
}

/// A put keeps keys unique.
pub proof fn lemma_put_distinct<V>(entries: Seq<CacheEntry<V>>, e: CacheEntry<V>)
    requires
        distinct_keys(entries),
    ensures
        distinct_keys(put_entry(entries, e)),
{
    lemma_find_entry(entries, e.key);
    let put = put_entry(entries, e);
    assert forall|i: int, j: int| 0 <= i < j < put.len() implies (#[trigger] put[i]).key != (
    #[trigger] put[j]).key by {
        if j < entries.len() {
            assert(entries[i].key != entries[j].key);
        }
    }
}

proof fn lemma_find_mapped<V>(
    entries: Seq<CacheEntry<V>>,
    e: CacheEntry<V>,
    f: spec_fn(CacheEntry<V>) -> CacheEntry<V>,
    key: CacheKey,
)
    requires
        forall|x: CacheEntry<V>| #[trigger] f(x) == (if x.key == e.key {
            e
        } else {
            x
        }),
    ensures
        find_entry(entries.map_values(f), key) == (match find_entry(entries, key) {
            Some(x) => Some(f(x)),
            None => None,
        }),
    decreases entries.len(),
{
    if entries.len() > 0 {
        assert(entries.map_values(f).drop_last() =~= entries.drop_last().map_values(f));
        lemma_find_mapped(entries.drop_last(), e, f, key);
        assert(f(entries.last()).key == entries.last().key);
    }
    lemma_find_entry(entries, key);
}

/// A cache of at most `cap` values, each of which counts for `ttl` nanoseconds.
#[derive(Debug)]
pub struct TtlCache<V> {
    entries: Vec<CacheEntry<V>>,
    cap: usize,
    ttl: u64,
}

impl<V> TtlCache<V> {
    /// What the cache holds, expired entries included.
    pub closed spec fn entries(self) -> Seq<CacheEntry<V>> {
        self.entries@
    }

    /// How many values it holds at most.
    pub closed spec fn cap(self) -> usize {
        self.cap
    }

    /// How long a value counts.
    pub closed spec fn ttl(self) -> u64 {
        self.ttl
    }

    /// Keys are unique, and the cap is kept.
    pub open spec fn wf(self) -> bool {
        &&& distinct_keys(self.entries())
        &&& self.entries().len() <= self.cap()
        &&& self.cap() > 0
    }

    /// The value under `key` that counts at `now`.
    pub open spec fn live(self, key: CacheKey, now: u64) -> Option<V> {
        match find_entry(self.entries(), key) {
            Some(e) => if e.expires_at > now {
                Some(e.value)
            } else {
                None
            },
            None => None,
        }
    }

    /// An empty cache.
    pub fn new(cap: usize, ttl: u64) -> (c: TtlCache<V>)
        requires
            cap > 0,
        ensures
            c.wf(),
            c.entries() == Seq::<CacheEntry<V>>::empty(),
            c.cap() == cap,
            c.ttl() == ttl,
    {
        TtlCache { entries: Vec::new(), cap, ttl }
    }

    fn position(&self, key: CacheKey) -> (p: Option<usize>)
        ensures
            match p {
                Some(i) => i < self.entries().len() && find_entry(self.entries(), key) == Some(
                    self.entries()[i as int],
                ) && self.entries()[i as int].key == key,
                None => find_entry(self.entries(), key) is None,
            },
    {
        let ghost all = self.entries@;
        let mut i: usize = self.entries.len();
        proof {
            assert(all.take(all.len() as int) =~= all);
        }
        while i > 0
            invariant
                i <= self.entries@.len(),
                all == self.entries@,
                find_entry(all, key) == find_entry(all.take(i as int), key),
            decreases i,
        {
            proof {
                assert(all.take(i as int).drop_last() =~= all.take(i - 1));
                assert(all.take(i as int).last() == all[i - 1]);
            }
            if self.entries[i - 1].key.0 == key.0 && self.entries[i - 1].key.1 == key.1 {
                return Some(i - 1);
            }
            i -= 1;
        }
        None
    }

    /// The value under `key`, where there is one that has not expired at `now`.
    pub fn get(&self, key: CacheKey, now: u64) -> (r: Option<&V>)
        ensures
            match r {
                Some(v) => self.live(key, now) == Some(*v),
                None => self.live(key, now) is None,
            },
    {
        match self.position(key) {
            Some(i) => if self.entries[i].expires_at > now {
                Some(&self.entries[i].value)
            } else {
                None
            },
            None => None,
        }
    }

    /// Puts `value` under `key`, to count from `now` on. A full cache is emptied
    /// first.
    pub fn insert(&mut self, key: CacheKey, value: V, now: u64)
        requires
            old(self).wf(),
            now + old(self).ttl() <= u64::MAX,
        ensures
            final(self).wf(),
            final(self).cap() == old(self).cap(),
            final(self).ttl() == old(self).ttl(),
            final(self).entries() == put_entry(
                if old(self).entries().len() >= old(self).cap() {
                    Seq::empty()
                } else {
                    old(self).entries()
                },
                CacheEntry { key, value, expires_at: (now + old(self).ttl()) as u64 },
            ),
    {
        let expires_at: u64 = now + self.ttl;
        if self.entries.len() >= self.cap {
            self.entries.clear();
        }
        let ghost base = self.entries@;
        let ghost e = CacheEntry { key, value, expires_at };
        proof {
            lemma_find_entry(base, key);
        }
        match self.position(key) {
            Some(i) => {
                self.entries.set(i, CacheEntry { key, value, expires_at });
                proof {
                    assert forall|j: int| 0 <= j < base.len() implies #[trigger] self.entries@[j]
                        == put_entry(base, e)[j] by {
                        if j < i {
                            assert(base[j].key != base[i as int].key);
                        } else if i < j {
                            assert(base[i as int].key != base[j].key);
                        }
                    }
                    assert(self.entries@ =~= put_entry(base, e));
                    assert forall|x: int, y: int| 0 <= x < y < self.entries@.len() implies (
                    #[trigger] self.entries@[x]).key != (#[trigger] self.entries@[y]).key by {
                        assert(base[x].key != base[y].key);
                    }
                }
            },
            None => {
                self.entries.push(CacheEntry { key, value, expires_at });
            },
        }
    }
}

/// What was put in a cache is there until it expires, and not from then on.
pub proof fn law_cached_until_expiry<V>(
    before: TtlCache<V>,
    after: TtlCache<V>,
    key: CacheKey,
    value: V,
    now: u64,
    later: u64,
)
    requires
        now + before.ttl() <= u64::MAX,
        after.entries() == put_entry(
            if before.entries().len() >= before.cap() {
                Seq::empty()
            } else {
                before.entries()
            },
            CacheEntry { key, value, expires_at: (now + before.ttl()) as u64 },
        ),
    ensures
        after.live(key, later) == if later < now + before.ttl() {
            Some(value)
        } else {
            None
        },
{
    let base = if before.entries().len() >= before.cap() {
        Seq::empty()
    } else {
        before.entries()
    };
    lemma_find_put(base, CacheEntry { key, value, expires_at: (now + before.ttl()) as u64 }, key);
}

/// Putting a value in a cache that has room leaves every other key as it was; in
/// a full cache it leaves no other key.
pub proof fn law_other_keys<V>(
    before: TtlCache<V>,
    after: TtlCache<V>,
    key: CacheKey,
    value: V,
    now: u64,
    other: CacheKey,
    at: u64,
)
    requires
        other != key,
        after.entries() == put_entry(
            if before.entries().len() >= before.cap() {
                Seq::empty()
            } else {
                before.entries()
            },
            CacheEntry { key, value, expires_at: (now + before.ttl()) as u64 },
        ),
    ensures
        after.live(other, at) == if before.entries().len() >= before.cap() {
            None
        } else {
            before.live(other, at)
        },
{
    let base = if before.entries().len() >= before.cap() {
        Seq::empty()
    } else {
        before.entries()
    };
    lemma_find_put(
        base,
        CacheEntry { key, value, expires_at: (now + before.ttl()) as u64 },
        other,
    );
}

} // verus!
