//! Roles of members, remembered for a short while.
//!
//! A role that was taken away may be seen for as long as an entry lives. That
//! somebody is no member is never remembered: who was just invited is let in at
//! once.

use crate::auth::Role;
use crate::cache::{
    find_entry, law_cached_until_expiry, law_other_keys, lemma_find_put, lemma_put_distinct,
    put_entry, CacheEntry, CacheKey, TtlCache,
};
use crate::ids::{OrgId, UserId};
use vstd::prelude::*;
use vstd::seq_lib::seq_to_set_is_finite;
use vstd::set_lib::lemma_len_subset;

verus! {

/// How long an entry lives, in nanoseconds.
pub const MEMBERSHIP_TTL: u64 = 30_000_000_000;

/// How many entries there are at most.
pub const MEMBERSHIP_CAP: usize = 4096;

/// The key under which the role of `user` in `org` is remembered.
pub open spec fn membership_key(user: UserId, org: OrgId) -> CacheKey {
    (user.0, org.0)
}

/// A role that was put in a cache, and when.
#[derive(Clone, Copy, Debug)]
pub struct Insertion {
    pub user: UserId,
    pub org: OrgId,
    pub role: Role,
    pub at: u64,
}

impl Insertion {
    /// Where it is found.
    pub open spec fn key(self) -> CacheKey {
        membership_key(self.user, self.org)
    }

    /// The entry that it makes in a cache whose entries live for `ttl`.
    pub open spec fn entry(self, ttl: u64) -> CacheEntry<Role> {
        CacheEntry { key: self.key(), value: self.role, expires_at: (self.at + ttl) as u64 }
    }
}

/// The insertion `x` took `before` to `after`: a full cache was emptied first.
pub open spec fn inserted(before: MembershipCache, after: MembershipCache, x: Insertion) -> bool {
    &&& after.inner().cap() == before.inner().cap()
    &&& after.inner().ttl() == before.inner().ttl()
    &&& after.inner().entries() == put_entry(
        if before.full() {
            Seq::empty()
        } else {
            before.inner().entries()
        },
        x.entry(before.inner().ttl()),
    )
}

/// The roles that are remembered.
#[derive(Debug)]
pub struct MembershipCache {
    inner: TtlCache<Role>,
}

impl MembershipCache {
    /// The cache underneath.
    pub closed spec fn inner(self) -> TtlCache<Role> {
        self.inner
    }

    /// Entries are unique, and the cap is kept.
    pub open spec fn wf(self) -> bool {
        self.inner().wf()
    }

    /// There is an entry for `user` in `org`, expired or not.
    pub open spec fn holds(self, user: UserId, org: OrgId) -> bool {
        find_entry(self.inner().entries(), membership_key(user, org)) is Some
    }

    /// There is no room for one entry more.
    pub open spec fn full(self) -> bool {
        self.inner().entries().len() >= self.inner().cap()
    }

    /// The role that is remembered of `user` in `org` at `now`.
    pub open spec fn role(self, user: UserId, org: OrgId, now: u64) -> Option<Role> {
        self.inner().live(membership_key(user, org), now)
    }

    /// An empty cache with the usual cap and lifetime.
    pub fn new() -> (c: MembershipCache)
        ensures
            c.wf(),
            c.inner().entries().len() == 0,
            forall|u: UserId, o: OrgId| !#[trigger] c.holds(u, o),
            c.inner().cap() == MEMBERSHIP_CAP,
            c.inner().ttl() == MEMBERSHIP_TTL,
    {
        MembershipCache::with_params(MEMBERSHIP_CAP, MEMBERSHIP_TTL)
    }

    /// An empty cache of at most `cap` entries that live for `ttl` nanoseconds.
    pub fn with_params(cap: usize, ttl: u64) -> (c: MembershipCache)
        requires
            cap > 0,
        ensures
            c.wf(),
            c.inner().entries().len() == 0,
            forall|u: UserId, o: OrgId| !#[trigger] c.holds(u, o),
            c.inner().cap() == cap,
            c.inner().ttl() == ttl,
    {
        MembershipCache { inner: TtlCache::new(cap, ttl) }
    }

    /// The role of `user` in `org`, if it is remembered at `now`.
    pub fn lookup(&self, user: UserId, org: OrgId, now: u64) -> (r: Option<Role>)
        ensures
            r == self.role(user, org, now),
    {
        match self.inner.get((user.0, org.0), now) {
            Some(role) => Some(*role),
            None => None,
        }
    }

    /// Remembers the role of `user` in `org` from `now` on. A full cache is
    /// emptied first.
    pub fn insert(&mut self, user: UserId, org: OrgId, role: Role, now: u64)
        requires
            old(self).wf(),
            now + old(self).inner().ttl() <= u64::MAX,
        ensures
            final(self).wf(),
            inserted(*old(self), *final(self), (Insertion { user, org, role, at: now })),
            final(self).inner().entries().len() == if old(self).full() {
                1
            } else if old(self).holds(user, org) {
                old(self).inner().entries().len()
            } else {
                old(self).inner().entries().len() + 1
            },
            forall|u: UserId, o: OrgId| #[trigger]
                final(self).holds(u, o) <==> (u, o) == (user, org) || !old(self).full() && old(
                    self,
                ).holds(u, o),
            forall|t: u64| #[trigger]
                final(self).role(user, org, t) == if t < now + old(self).inner().ttl() {
                    Some(role)
                } else {
                    None
                },
            forall|u: UserId, o: OrgId, t: u64|
                (u, o) != (user, org) ==> #[trigger] final(self).role(u, o, t) == if old(
                    self,
                ).full() {
                    None
                } else {
                    old(self).role(u, o, t)
                },
    {
        let ghost before = self.inner;
        self.inner.insert((user.0, org.0), role, now);
        proof {
            let after = self.inner;
            let key = membership_key(user, org);
            assert forall|t: u64| #[trigger]
                self.role(user, org, t) == if t < now + before.ttl() {
                    Some(role)
                } else {
                    None
                } by {
                law_cached_until_expiry(before, after, key, role, now, t);
            }
            assert forall|u: UserId, o: OrgId, t: u64| (u, o) != (user, org) implies #[trigger]
                self.role(u, o, t) == if before.entries().len() >= before.cap() {
                    None
                } else {
                    before.live(membership_key(u, o), t)
                } by {
                law_other_keys(before, after, key, role, now, membership_key(u, o), t);
            }
            let base = if before.entries().len() >= before.cap() {
                Seq::empty()
            } else {
                before.entries()
            };
            let e = CacheEntry { key, value: role, expires_at: (now + before.ttl()) as u64 };
            assert forall|u: UserId, o: OrgId| #[trigger]
                self.holds(u, o) <==> (u, o) == (user, org) || find_entry(
                    base,
                    membership_key(u, o),
                ) is Some by {
                lemma_find_put(base, e, membership_key(u, o));
            }
        }
    }
}

/// What an insertion does: a full cache is left with the new entry alone, in any
/// other every other entry stays as it is. The new entry takes the place of an
/// earlier one for the same pair, and the cap is kept.
pub proof fn law_insertion_replaces_or_empties(
    before: MembershipCache,
    after: MembershipCache,
    x: Insertion,
)
    requires
        before.wf(),
        inserted(before, after, x),
    ensures
        find_entry(after.inner().entries(), x.key()) == Some(x.entry(before.inner().ttl())),
        before.full() ==> after.inner().entries() == seq![x.entry(before.inner().ttl())],
        forall|key: CacheKey|
            !before.full() && key != x.key() ==> #[trigger] find_entry(after.inner().entries(), key)
                == find_entry(before.inner().entries(), key),
        after.inner().entries().len() == if before.full() {
            1
        } else if find_entry(before.inner().entries(), x.key()) is Some {
            before.inner().entries().len()
        } else {
            before.inner().entries().len() + 1
        },
        after.inner().entries().len() <= after.inner().cap(),
{
    let e = x.entry(before.inner().ttl());
    let base = if before.full() {
        Seq::empty()
    } else {
        before.inner().entries()
    };
    lemma_find_put(base, e, x.key());
    assert forall|key: CacheKey| !before.full() && key != x.key() implies #[trigger] find_entry(
        after.inner().entries(),
        key,
    ) == find_entry(before.inner().entries(), key) by {
        lemma_find_put(base, e, key);
    }
    if before.full() {
        assert(after.inner().entries() =~= seq![e]);
    }
}

/// A cache went through `states` while the insertions `xs` were made, one after the
/// other, from the time it was new. All of them end within the clock.
pub open spec fn history(xs: Seq<Insertion>, states: Seq<MembershipCache>) -> bool {
    &&& states.len() == xs.len() + 1
    &&& states[0].wf()
    &&& states[0].inner().entries().len() == 0
    &&& forall|i: int|
        0 <= i < xs.len() ==> inserted(states[i], states[i + 1], #[trigger] xs[i]) && xs[i].at
            + states[0].inner().ttl() <= u64::MAX
}

/// The pairs that were put in a cache.
pub open spec fn keys_of(xs: Seq<Insertion>) -> Set<CacheKey> {
    xs.map_values(|x: Insertion| x.key()).to_set()
}

/// Every state of a history is well-formed, and holds nothing but what was put in.
proof fn lemma_history(xs: Seq<Insertion>, states: Seq<MembershipCache>, n: int)
    requires
        history(xs, states),
        0 <= n <= xs.len(),
    ensures
        states[n].wf(),
        states[n].inner().cap() == states[0].inner().cap(),
        states[n].inner().ttl() == states[0].inner().ttl(),
        forall|i: int|
            0 <= i < states[n].inner().entries().len() ==> exists|j: int|
                0 <= j < n && (#[trigger] xs[j]).key() == (
                #[trigger] states[n].inner().entries()[i]).key,
    decreases n,
{
    if n > 0 {
        lemma_history(xs, states, n - 1);
        let x = xs[n - 1];
        let before = states[n - 1];
        assert(inserted(states[n - 1], states[n - 1 + 1], xs[n - 1]));
        law_insertion_replaces_or_empties(before, states[n], x);
        let base = if before.full() {
            Seq::empty()
        } else {
            before.inner().entries()
        };
        let e = x.entry(before.inner().ttl());
        lemma_put_distinct(base, e);
        let now = states[n].inner().entries();
        assert forall|i: int| 0 <= i < now.len() implies exists|j: int|
            0 <= j < n && (#[trigger] xs[j]).key() == (#[trigger] now[i]).key by {
            if now[i].key == x.key() {
                assert(xs[n - 1].key() == now[i].key);
            } else {
                assert(now[i] == base[i]);
                let j = choose|j: int| 0 <= j < n - 1 && (#[trigger] xs[j]).key() == base[i].key;
                assert(xs[j].key() == now[i].key);
            }
        }
    }
}

/// What is looked up after a whole history of insertions: the role of the last
/// insertion for the pair until its time is over, and nothing from that instant on.
/// A pair that was never put in gives nothing, nor does one that was dropped when the
/// cache was full.
pub proof fn law_lookup_gives_the_last_insertion(
    xs: Seq<Insertion>,
    states: Seq<MembershipCache>,
    user: UserId,
    org: OrgId,
    k: int,
    now: u64,
)
    requires
        history(xs, states),
        -1 <= k < xs.len(),
        k >= 0 ==> xs[k].key() == membership_key(user, org),
        forall|i: int| k < i < xs.len() ==> (#[trigger] xs[i]).key() != membership_key(user, org),
    ensures
        states.last().role(user, org, now) == if k >= 0 && (forall|i: int|
            k < i < xs.len() ==> !(#[trigger] states[i]).full()) && now < xs[k].at
            + states[0].inner().ttl() {
            Some(xs[k].role)
        } else {
            None
        },
{
    lemma_last_entry(xs, states, membership_key(user, org), k, xs.len() as int);
    assert(states.last() == states[xs.len() as int]);
    if k >= 0 {
        assert(xs[k].at + states[0].inner().ttl() <= u64::MAX);
    }
}

/// What is found under `key` after the first `n` insertions.
proof fn lemma_last_entry(
    xs: Seq<Insertion>,
    states: Seq<MembershipCache>,
    key: CacheKey,
    k: int,
    n: int,
)
    requires
        history(xs, states),
        -1 <= k < n <= xs.len(),
        k >= 0 ==> xs[k].key() == key,
        forall|i: int| k < i < n ==> (#[trigger] xs[i]).key() != key,
    ensures
        find_entry(states[n].inner().entries(), key) == if k >= 0 && (forall|i: int|
            k < i < n ==> !(#[trigger] states[i]).full()) {
            Some(xs[k].entry(states[0].inner().ttl()))
        } else {
            None
        },
    decreases n,
{
    if n > 0 {
        lemma_history(xs, states, n - 1);
        let before = states[n - 1];
        assert(inserted(states[n - 1], states[n - 1 + 1], xs[n - 1]));
        let base = if before.full() {
            Seq::empty()
        } else {
            before.inner().entries()
        };
        lemma_find_put(base, xs[n - 1].entry(before.inner().ttl()), key);
        if k < n - 1 {
            lemma_last_entry(xs, states, key, k, n - 1);
        }
    }
}

/// As long as fewer pairs than the cap were put in, the cache is not full: the first
/// pairs, as many as the cap counts, all stay.
pub proof fn law_first_pairs_stay(xs: Seq<Insertion>, states: Seq<MembershipCache>, i: int)
    requires
        history(xs, states),
        0 <= i < xs.len(),
        keys_of(xs.drop_last()).len() < states[0].inner().cap(),
    ensures
        !states[i].full(),
{
    lemma_history(xs, states, i);
    let entries = states[i].inner().entries();
    let keys = entries.map_values(|e: CacheEntry<Role>| e.key);
    let put = xs.drop_last().map_values(|x: Insertion| x.key());
    assert(keys.no_duplicates()) by {
        assert forall|a: int, b: int| 0 <= a < keys.len() && 0 <= b < keys.len() && a != b implies keys[a]
            != keys[b] by {
            if a < b {
                assert(entries[a].key != entries[b].key);
            } else {
                assert(entries[b].key != entries[a].key);
            }
        }
    }
    keys.unique_seq_to_set();
    assert forall|key: CacheKey| keys.to_set().contains(key) implies #[trigger] keys_of(
        xs.drop_last(),
    ).contains(key) by {
        let a = choose|a: int| 0 <= a < keys.len() && keys[a] == key;
        assert(entries[a].key == key);
        let j = choose|j: int| 0 <= j < i && (#[trigger] xs[j]).key() == entries[a].key;
        assert(put[j] == key);
    }
    seq_to_set_is_finite(put);
    lemma_len_subset(keys.to_set(), keys_of(xs.drop_last()));
}

} // verus!
